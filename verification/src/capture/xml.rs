//! XML documents as a stream of items.

use self::XmlItem::{Close, Open, Other, Reference};
use quick_xml::events::Event::{Empty, End, Eof, GeneralRef, Start, Text};
use quick_xml::name::LocalName;
use std::collections::VecDeque;
use vstd::prelude::*;

verus! {

/// A reader of the quick-xml crate.
#[verifier::external_type_specification]
#[verifier::external_body]
#[verifier::reject_recursive_types(R)]
pub struct ExXmlReader<R>(quick_xml::Reader<R>);

/// The error type of the quick-xml crate.
#[verifier::external_type_specification]
#[verifier::external_body]
pub struct ExXmlError(quick_xml::Error);

/// An attribute: its name without a prefix, and its value, or in words why that
/// cannot be read.
pub type XmlAttribute = (String, Result<String, String>);

/// A piece of a document.
#[derive(Debug)]
pub enum XmlItem {
    /// A start tag or an empty element: its name without a prefix, and its
    /// attributes, in place of each malformed one nothing.
    Open(String, Vec<Option<XmlAttribute>>),
    /// Text, unless it cannot be decoded.
    Text(Option<String>),
    /// A reference, by the bytes that stand between `&` and `;`.
    Reference(Vec<u8>),
    /// An end tag: its name without a prefix.
    Close(String),
    /// Anything else.
    Other,
    /// The end of the document.
    End,
}

/// The model of an attribute.
pub type AttributeModel = Option<(Seq<char>, Result<Seq<char>, Seq<char>>)>;

/// The model of what is read next: a piece of a document, or an error.
pub ghost enum XmlModel {
    Open(Seq<char>, Seq<AttributeModel>),
    Text(Option<Seq<char>>),
    Reference(Seq<u8>),
    Close(Seq<char>),
    Other,
    End,
    Failed,
}

pub open spec fn string_view(s: Option<String>) -> Option<Seq<char>> {
    match s {
        Some(s) => Some(s@),
        None => None,
    }
}

pub open spec fn value_view(s: Result<String, String>) -> Result<Seq<char>, Seq<char>> {
    match s {
        Ok(s) => Ok(s@),
        Err(e) => Err(e@),
    }
}

pub open spec fn attribute_view(a: Option<XmlAttribute>) -> AttributeModel {
    match a {
        Some(a) => Some((a.0@, value_view(a.1))),
        None => None,
    }
}

pub open spec fn attribute_views(v: Seq<Option<XmlAttribute>>) -> Seq<AttributeModel> {
    Seq::new(v.len(), |i: int| attribute_view(v[i]))
}

impl View for XmlItem {
    type V = XmlModel;

    open spec fn view(&self) -> XmlModel {
        match *self {
            XmlItem::Open(name, attributes) => XmlModel::Open(name@, attribute_views(attributes@)),
            XmlItem::Text(s) => XmlModel::Text(string_view(s)),
            XmlItem::Reference(b) => XmlModel::Reference(b@),
            XmlItem::Close(name) => XmlModel::Close(name@),
            XmlItem::Other => XmlModel::Other,
            XmlItem::End => XmlModel::End,
        }
    }
}

/// What a reader gave: an error stands for itself.
pub open spec fn read_model(r: Result<XmlItem, quick_xml::Error>) -> XmlModel {
    match r {
        Ok(item) => item@,
        Err(_) => XmlModel::Failed,
    }
}

/// Whether reading ends with an item.
pub open spec fn is_last(m: XmlModel) -> bool {
    m is End || m is Failed
}

/// Whether items end with the first that is a last one.
pub open spec fn is_document(items: Seq<XmlModel>) -> bool {
    items.len() > 0 && is_last(items.last()) && forall|i: int|
        0 <= i < items.len() - 1 ==> !is_last(#[trigger] items[i])
}

/// What the quick-xml crate reads from bytes, up to the end of the document or
/// the first error.
pub uninterp spec fn xml_items(data: Seq<u8>) -> Seq<XmlModel>;

/// What a reader will still read.
pub uninterp spec fn unread(reader: quick_xml::Reader<VecDeque<u8>>) -> Seq<XmlModel>;

/// The text with its character references and predefined entities resolved, by
/// `quick_xml::escape::unescape`, if it holds no others.
pub uninterp spec fn unescaped(text: Seq<char>) -> Option<Seq<char>>;

/// `quick_xml::Reader::from_reader`: a reader at the start of a document, which
/// ends or fails at some item.
#[verifier::external_body]
pub(crate) fn open_document(data: &[u8]) -> (r: quick_xml::Reader<VecDeque<u8>>)
    ensures
        unread(r) == xml_items(data@),
        is_document(unread(r)),
{
    quick_xml::Reader::from_reader(data.to_vec().into())
}

/// `quick_xml::Reader::read_event_into`: the next item, with names without
/// prefix as `String::from_utf8_lossy` gives them, attribute values by
/// `Attribute::unescape_value` and text by `BytesText::decode`; references are
/// the bytes of a `BytesRef`.
#[verifier::external_body]
#[allow(deprecated)]
pub(crate) fn next_item(reader: &mut quick_xml::Reader<VecDeque<u8>>) -> (r: Result<XmlItem, quick_xml::Error>)
    requires
        unread(*old(reader)).len() > 0,
    ensures
        read_model(r) == unread(*old(reader))[0],
        unread(*final(reader)) == unread(*old(reader)).skip(1),
{
    let lossy = |name: LocalName| String::from_utf8_lossy(name.as_ref()).into_owned();
    Ok(match reader.read_event_into(&mut Vec::new())? {
        Start(e) | Empty(e) => Open(
            lossy(e.local_name()),
            e.attributes().map(|a| a.ok().map(|a| (
                lossy(a.key.local_name()),
                a.unescape_value().map(String::from).map_err(|e| e.to_string()),
            ))).collect(),
        ),
        Text(e) => XmlItem::Text(e.decode().ok().map(String::from)),
        GeneralRef(e) => Reference(e.to_vec()),
        End(e) => Close(lossy(e.local_name())),
        Eof => XmlItem::End,
        _ => Other,
    })
}

/// `quick_xml::escape::unescape`.
#[verifier::external_body]
pub(crate) fn unescape(text: &str) -> (r: Option<String>)
    ensures
        string_view(r) == unescaped(text@),
{
    quick_xml::escape::unescape(text).ok().map(String::from)
}

} // verus!
