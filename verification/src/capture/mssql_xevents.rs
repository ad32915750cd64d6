//! Capture from SQL Server's Extended Events, exported as XML. `<event>` elements
//! count wherever they stand; only completed statements are kept.

use crate::capture::entries::{build_workload, entry_views, log_workload, EntryView, LogEntry};
use crate::capture::error::{outcome, CaptureError, ErrorView};
use crate::capture::time::{offset_datetime, parse_with_offset, timestamp_of};
use crate::capture::xml::{
    attribute_view, attribute_views, is_document, is_last, next_item, open_document, string_view, unescape, unescaped,
    unread, xml_items, AttributeModel, XmlAttribute, XmlItem, XmlModel,
};
use crate::number::{parse_u64, parse_unsigned};
use crate::profile::{ProfileView, SourceDialect, Timestamp, WorkloadProfile};
use crate::text::{copy_string, from_chars, from_utf8, is_blank, is_space, law_trim_of_blank, str_eq, to_chars, trim, trim_slice};
use vstd::hash_map::StringHashMap;
use vstd::prelude::*;
use vstd::utf8::{decode_utf8, valid_utf8};

verus! {

// ── Events ──────────────────────────────────────────────────────────

/// An event that is being read.
pub ghost struct EventModel {
    pub name: Seq<char>,
    pub time: Option<Timestamp>,
    pub fields: Map<Seq<char>, Seq<char>>,
}

/// How far a document has been read: the event, its field, whether the field's
/// value is being read, what has been read of it, and the entries.
pub ghost struct XEventsModel {
    pub current: Option<EventModel>,
    pub field: Option<Seq<char>>,
    pub in_value: bool,
    pub value: Seq<char>,
    pub entries: Seq<EntryView>,
}

/// Nothing read yet.
pub open spec fn xevents_start() -> XEventsModel {
    XEventsModel { current: None, field: None, in_value: false, value: Seq::empty(), entries: Seq::empty() }
}

/// An event with nothing known of it.
pub open spec fn new_event() -> EventModel {
    EventModel { name: Seq::empty(), time: None, fields: Map::empty() }
}

/// The event of the first `n` attributes of its tag.
pub open spec fn event_of(attributes: Seq<AttributeModel>, n: int) -> Result<EventModel, ErrorView>
    decreases n,
{
    if n <= 0 {
        Ok(new_event())
    } else {
        match (event_of(attributes, n - 1), attributes[n - 1]) {
            (Ok(e), Some((key, value))) => if key == "name"@ {
                match value {
                    Ok(name) => Ok(EventModel { name, ..e }),
                    Err(reason) => Err(ErrorView::BadAttribute(reason)),
                }
            } else if key == "timestamp"@ {
                match value {
                    Ok(time) => Ok(EventModel { time: timestamp_of(offset_datetime(time)), ..e }),
                    Err(reason) => Err(ErrorView::BadAttribute(reason)),
                }
            } else {
                Ok(e)
            },
            (before, _) => before,
        }
    }
}

/// The field after the first `n` attributes of a tag.
pub open spec fn field_of(
    field: Option<Seq<char>>,
    attributes: Seq<AttributeModel>,
    n: int,
) -> Result<Option<Seq<char>>, ErrorView>
    decreases n,
{
    if n <= 0 {
        Ok(field)
    } else {
        match (field_of(field, attributes, n - 1), attributes[n - 1]) {
            (Ok(f), Some((key, value))) => if key == "name"@ {
                match value {
                    Ok(name) => Ok(Some(name)),
                    Err(reason) => Err(ErrorView::BadAttribute(reason)),
                }
            } else {
                Ok(f)
            },
            (before, _) => before,
        }
    }
}

/// Whether an event is a completed statement.
pub open spec fn is_completed_event(name: Seq<char>) -> bool {
    name == "sql_batch_completed"@ || name == "rpc_completed"@ || name == "sql_statement_completed"@ || name
        == "sp_statement_completed"@
}

/// A field of an event, empty if it has none.
pub open spec fn event_text(e: EventModel, field: Seq<char>) -> Seq<char> {
    if e.fields.contains_key(field) {
        e.fields[field]
    } else {
        Seq::empty()
    }
}

/// The SQL text of an event.
pub open spec fn event_sql(e: EventModel) -> Seq<char> {
    if e.fields.contains_key("batch_text"@) {
        e.fields["batch_text"@]
    } else {
        event_text(e, "statement"@)
    }
}

/// A number in a field of an event, zero if there is none.
pub open spec fn event_number(e: EventModel, field: Seq<char>) -> u64 {
    match parse_unsigned(event_text(e, field), u64::MAX as nat) {
        Some(n) => n as u64,
        None => 0,
    }
}

/// An event as an entry, if it is a completed statement with text.
pub open spec fn event_entry(e: EventModel) -> Option<EntryView> {
    if is_completed_event(e.name) && event_sql(e).len() > 0 {
        Some(
            EntryView {
                session: event_number(e, "session_id"@),
                time: e.time,
                user: Seq::empty(),
                database: event_text(e, "database_name"@),
                duration_us: event_number(e, "duration"@),
                sql: event_sql(e),
                keep: true,
            },
        )
    } else {
        None
    }
}

/// A start tag read.
pub open spec fn opened(m: XEventsModel, name: Seq<char>, attributes: Seq<AttributeModel>) -> Result<
    XEventsModel,
    ErrorView,
> {
    if name == "event"@ {
        match event_of(attributes, attributes.len() as int) {
            Ok(e) => Ok(XEventsModel { current: Some(e), value: Seq::empty(), ..m }),
            Err(e) => Err(e),
        }
    } else if name == "data"@ || name == "action"@ {
        match field_of(m.field, attributes, attributes.len() as int) {
            Ok(field) => Ok(XEventsModel { field, value: Seq::empty(), ..m }),
            Err(e) => Err(e),
        }
    } else if name == "value"@ || name == "text"@ {
        Ok(XEventsModel { in_value: true, value: Seq::empty(), ..m })
    } else {
        Ok(m)
    }
}

/// Whether text belongs to the value of an event's field.
pub open spec fn reads_value(m: XEventsModel) -> bool {
    m.in_value && m.current is Some && m.field is Some
}

/// A piece of a field's value read: the field is what has been read of its
/// value, without the space around it, once that is not empty.
pub open spec fn value_read(m: XEventsModel, piece: Seq<char>) -> XEventsModel {
    let value = m.value + piece;
    let e = m.current->0;
    XEventsModel {
        current: Some(
            if trim(value).len() == 0 {
                e
            } else {
                EventModel { fields: e.fields.insert(m.field->0, trim(value)), ..e }
            },
        ),
        value,
        ..m
    }
}

/// Text with references read: in the value of an event's field it is a piece of
/// that value.
pub open spec fn text_read(m: XEventsModel, text: Option<Seq<char>>) -> Result<XEventsModel, ErrorView> {
    if reads_value(m) {
        match text {
            None => Err(ErrorView::BadText),
            Some(t) => match unescaped(t) {
                None => Err(ErrorView::BadEntity),
                Some(u) => Ok(value_read(m, u)),
            },
        }
    } else {
        Ok(m)
    }
}

/// The text of a reference, if it is UTF-8.
pub open spec fn reference_text(name: Seq<u8>) -> Option<Seq<char>> {
    if valid_utf8(name) {
        Some("&"@ + decode_utf8(name) + ";"@)
    } else {
        None
    }
}

/// A value that is read in two pieces is the value of both in one.
pub proof fn law_pieces_of_a_value_join(m: XEventsModel, a: Seq<char>, b: Seq<char>)
    requires
        reads_value(m),
    ensures
        value_read(value_read(m, a), b) == value_read(m, a + b),
{
    let before = m.value + a;
    assert(before + b =~= m.value + (a + b));
    let e = m.current->0;
    law_trim_of_blank(before);
    law_trim_of_blank(before + b);
    if is_blank(before + b) {
        assert forall|k: int| 0 <= k < before.len() implies is_space(#[trigger] before[k]) by {
            assert((before + b)[k] == before[k]);
        }
    }
    if trim(m.value + a).len() > 0 {
        assert(e.fields.insert(m.field->0, trim(m.value + a)).insert(m.field->0, trim(m.value + a + b))
            =~= e.fields.insert(m.field->0, trim(m.value + a + b)));
    }
}

/// An end tag read.
pub open spec fn closed_tag(m: XEventsModel, name: Seq<char>) -> XEventsModel {
    if name == "value"@ || name == "text"@ {
        XEventsModel { in_value: false, ..m }
    } else if name == "data"@ || name == "action"@ {
        XEventsModel { field: None, ..m }
    } else if name == "event"@ && m.current is Some {
        XEventsModel {
            current: None,
            entries: match event_entry(m.current->0) {
                Some(e) => m.entries.push(e),
                None => m.entries,
            },
            ..m
        }
    } else {
        m
    }
}

/// An item read.
pub open spec fn item_read(m: XEventsModel, item: XmlModel) -> Result<XEventsModel, ErrorView> {
    match item {
        XmlModel::Open(name, attributes) => opened(m, name, attributes),
        XmlModel::Text(text) => text_read(m, text),
        XmlModel::Reference(name) => text_read(m, reference_text(name)),
        XmlModel::Close(name) => Ok(closed_tag(m, name)),
        XmlModel::Other => Ok(m),
        XmlModel::End => Ok(m),
        XmlModel::Failed => Err(ErrorView::BadXml),
    }
}

/// The first `n` items read.
pub open spec fn items_read(items: Seq<XmlModel>, n: int) -> Result<XEventsModel, ErrorView>
    decreases n,
{
    if n <= 0 {
        Ok(xevents_start())
    } else {
        match items_read(items, n - 1) {
            Ok(m) => item_read(m, items[n - 1]),
            Err(e) => Err(e),
        }
    }
}

/// The workload of a document's items.
pub open spec fn xevents_workload(items: Seq<XmlModel>, source_host: Seq<char>, captured_at: Timestamp) -> Result<
    ProfileView,
    ErrorView,
> {
    match items_read(items, items.len() as int) {
        Ok(m) => log_workload(
            m.entries,
            true,
            source_host,
            "unknown"@,
            "mssql_xevents"@,
            SourceDialect::SqlServer,
            captured_at,
        ),
        Err(e) => Err(e),
    }
}

// ── Reading ─────────────────────────────────────────────────────────

/// An event that is being read.
pub struct EventBuilder {
    name: String,
    time: Option<Timestamp>,
    fields: StringHashMap<String>,
}

impl View for EventBuilder {
    type V = EventModel;

    closed spec fn view(&self) -> EventModel {
        EventModel {
            name: self.name@,
            time: self.time,
            fields: self.fields@.map_values(|s: String| s@),
        }
    }
}

impl EventBuilder {
    pub fn new() -> (r: Self)
        ensures
            r@ == new_event(),
    {
        let r = EventBuilder { name: String::new(), time: None, fields: StringHashMap::new() };
        proof {
            assert(r@.name =~= Seq::empty());
            assert(r@.fields =~= Map::empty());
        }
        r
    }

    /// Sets a field.
    pub fn set_field(&mut self, field: String, value: String)
        ensures
            final(self)@ == (EventModel { fields: old(self)@.fields.insert(field@, value@), ..old(self)@ }),
    {
        let ghost before = self@;
        let ghost name = field@;
        self.fields.insert(field, value);
        proof {
            assert(self@.fields =~= before.fields.insert(name, value@));
        }
    }

    fn has_field(&self, field: &str) -> (r: bool)
        ensures
            r == self@.fields.contains_key(field@),
    {
        self.fields.contains_key(field)
    }

    fn text(&self, field: &str) -> (r: String)
        ensures
            r@ == event_text(self@, field@),
    {
        match self.fields.get(field) {
            Some(s) => {
                proof {
                    assert(self@.fields[field@] == s@);
                }
                copy_string(s.as_str())
            },
            None => {
                proof {
                    assert(!self@.fields.contains_key(field@));
                }
                String::new()
            },
        }
    }

    fn number(&self, field: &str) -> (r: u64)
        ensures
            r == event_number(self@, field@),
    {
        match parse_u64(&to_chars(self.text(field).as_str()), u64::MAX) {
            Some(n) => n,
            None => 0,
        }
    }

    /// The event as an entry, if it is a completed statement with text.
    pub fn finish(&self) -> (r: Option<LogEntry>)
        ensures
            r is Some <==> event_entry(self@) is Some,
            r matches Some(e) ==> event_entry(self@) == Some(e@),
    {
        let name = self.name.as_str();
        if !(str_eq(name, "sql_batch_completed") || str_eq(name, "rpc_completed") || str_eq(
            name,
            "sql_statement_completed",
        ) || str_eq(name, "sp_statement_completed")) {
            return None;
        }
        let sql = if self.has_field("batch_text") {
            self.text("batch_text")
        } else {
            self.text("statement")
        };
        if to_chars(sql.as_str()).len() == 0 {
            return None;
        }
        let e = LogEntry {
            session: self.number("session_id"),
            time: self.time,
            user: String::new(),
            database: self.text("database_name"),
            duration_us: self.number("duration"),
            sql,
            keep: true,
        };
        proof {
            assert(e.user@ =~= Seq::empty());
        }
        Some(e)
    }
}

fn read_event_tag(attributes: &Vec<Option<XmlAttribute>>) -> (r: Result<EventBuilder, CaptureError>)
    ensures
        match r {
            Ok(b) => event_of(attribute_views(attributes@), attributes@.len() as int) == Ok::<
                EventModel,
                ErrorView,
            >(b@),
            Err(e) => event_of(attribute_views(attributes@), attributes@.len() as int) == Err::<
                EventModel,
                ErrorView,
            >(e@),
        },
{
    let ghost all = attribute_views(attributes@);
    let mut builder = EventBuilder::new();
    let n = attributes.len();
    let mut i: usize = 0;
    while i < n
        invariant
            i <= n,
            n == attributes@.len(),
            all == attribute_views(attributes@),
            event_of(all, i as int) == Ok::<EventModel, ErrorView>(builder@),
        decreases n - i,
    {
        proof {
            assert(all[i as int] == attribute_view(attributes@[i as int]));
        }
        if let Some(a) = &attributes[i] {
            if str_eq(a.0.as_str(), "name") {
                match &a.1 {
                    Ok(name) => {
                        builder.name = copy_string(name.as_str());
                    },
                    Err(reason) => {
                        proof {
                            lemma_event_error(all, i + 1, n as int);
                        }
                        return Err(CaptureError::BadAttribute(copy_string(reason.as_str())));
                    },
                }
            } else if str_eq(a.0.as_str(), "timestamp") {
                match &a.1 {
                    Ok(time) => {
                        builder.time = parse_with_offset(time.as_str());
                    },
                    Err(reason) => {
                        proof {
                            lemma_event_error(all, i + 1, n as int);
                        }
                        return Err(CaptureError::BadAttribute(copy_string(reason.as_str())));
                    },
                }
            }
        }
        i = i + 1;
    }
    Ok(builder)
}

proof fn lemma_event_error(attributes: Seq<AttributeModel>, i: int, n: int)
    requires
        0 <= i <= n,
        event_of(attributes, i) is Err,
    ensures
        event_of(attributes, n) == event_of(attributes, i),
    decreases n - i,
{
    if i < n {
        lemma_event_error(attributes, i, n - 1);
    }
}

proof fn lemma_field_error(field: Option<Seq<char>>, attributes: Seq<AttributeModel>, i: int, n: int)
    requires
        0 <= i <= n,
        field_of(field, attributes, i) is Err,
    ensures
        field_of(field, attributes, n) == field_of(field, attributes, i),
    decreases n - i,
{
    if i < n {
        lemma_field_error(field, attributes, i, n - 1);
    }
}

fn read_field_tag(field: Option<String>, attributes: &Vec<Option<XmlAttribute>>) -> (r: Result<
    Option<String>,
    CaptureError,
>)
    ensures
        match r {
            Ok(f) => field_of(string_view(field), attribute_views(attributes@), attributes@.len() as int) == Ok::<
                Option<Seq<char>>,
                ErrorView,
            >(string_view(f)),
            Err(e) => field_of(string_view(field), attribute_views(attributes@), attributes@.len() as int)
                == Err::<Option<Seq<char>>, ErrorView>(e@),
        },
{
    let ghost start = string_view(field);
    let ghost all = attribute_views(attributes@);
    let mut out = field;
    let n = attributes.len();
    let mut i: usize = 0;
    while i < n
        invariant
            i <= n,
            n == attributes@.len(),
            all == attribute_views(attributes@),
            start == string_view(field),
            field_of(start, all, i as int) == Ok::<Option<Seq<char>>, ErrorView>(string_view(out)),
        decreases n - i,
    {
        proof {
            assert(all[i as int] == attribute_view(attributes@[i as int]));
        }
        if let Some(a) = &attributes[i] {
            if str_eq(a.0.as_str(), "name") {
                match &a.1 {
                    Ok(name) => {
                        out = Some(copy_string(name.as_str()));
                    },
                    Err(reason) => {
                        proof {
                            lemma_field_error(start, all, i + 1, n as int);
                        }
                        return Err(CaptureError::BadAttribute(copy_string(reason.as_str())));
                    },
                }
            }
        }
        i = i + 1;
    }
    Ok(out)
}

/// How far a document has been read.
pub struct XEventsState {
    current: Option<EventBuilder>,
    field: Option<String>,
    in_value: bool,
    value: String,
    entries: Vec<LogEntry>,
}

pub closed spec fn builder_view(b: Option<EventBuilder>) -> Option<EventModel> {
    match b {
        Some(b) => Some(b@),
        None => None,
    }
}

impl View for XEventsState {
    type V = XEventsModel;

    closed spec fn view(&self) -> XEventsModel {
        XEventsModel {
            current: builder_view(self.current),
            field: string_view(self.field),
            in_value: self.in_value,
            value: self.value@,
            entries: entry_views(self.entries@),
        }
    }
}

impl XEventsState {
    pub fn new() -> (r: Self)
        ensures
            r@ == xevents_start(),
    {
        let r = XEventsState {
            current: None,
            field: None,
            in_value: false,
            value: String::new(),
            entries: Vec::new(),
        };
        proof {
            assert(r@.value =~= Seq::empty());
            assert(entry_views(r.entries@) =~= Seq::empty());
        }
        r
    }

    fn on_open(&mut self, name: &str, attributes: &Vec<Option<XmlAttribute>>) -> (r: Result<(), CaptureError>)
        ensures
            match r {
                Ok(_) => opened(old(self)@, name@, attribute_views(attributes@)) == Ok::<
                    XEventsModel,
                    ErrorView,
                >(final(self)@),
                Err(e) => opened(old(self)@, name@, attribute_views(attributes@)) == Err::<
                    XEventsModel,
                    ErrorView,
                >(e@),
            },
    {
        if str_eq(name, "event") {
            match read_event_tag(attributes) {
                Ok(builder) => {
                    self.current = Some(builder);
                    self.value = String::new();
                },
                Err(e) => return Err(e),
            }
        } else if str_eq(name, "data") || str_eq(name, "action") {
            let field = match &self.field {
                Some(f) => Some(copy_string(f.as_str())),
                None => None,
            };
            match read_field_tag(field, attributes) {
                Ok(field) => {
                    self.field = field;
                    self.value = String::new();
                },
                Err(e) => return Err(e),
            }
        } else if str_eq(name, "value") || str_eq(name, "text") {
            self.in_value = true;
            self.value = String::new();
        }
        proof {
            assert(self@.value =~= old(self)@.value || self@.value =~= Seq::empty());
        }
        Ok(())
    }

    fn on_text(&mut self, text: &Option<String>) -> (r: Result<(), CaptureError>)
        ensures
            match r {
                Ok(_) => text_read(old(self)@, string_view(*text)) == Ok::<XEventsModel, ErrorView>(final(self)@),
                Err(e) => text_read(old(self)@, string_view(*text)) == Err::<XEventsModel, ErrorView>(e@),
            },
    {
        if !self.in_value || self.current.is_none() {
            return Ok(());
        }
        let field = match &self.field {
            Some(f) => copy_string(f.as_str()),
            None => return Ok(()),
        };
        let decoded = match text {
            Some(t) => t,
            None => return Err(CaptureError::BadText),
        };
        let plain = match unescape(decoded.as_str()) {
            Some(t) => t,
            None => return Err(CaptureError::BadEntity),
        };
        self.value.push_str(plain.as_str());
        let chars = to_chars(self.value.as_str());
        let value = trim_slice(&chars);
        if value.len() > 0 {
            if let Some(mut builder) = self.current.take() {
                builder.set_field(field, from_chars(value));
                self.current = Some(builder);
            }
        }
        Ok(())
    }

    fn on_reference(&mut self, name: &[u8]) -> (r: Result<(), CaptureError>)
        ensures
            match r {
                Ok(_) => text_read(old(self)@, reference_text(name@)) == Ok::<XEventsModel, ErrorView>(
                    final(self)@,
                ),
                Err(e) => text_read(old(self)@, reference_text(name@)) == Err::<XEventsModel, ErrorView>(
                    e@,
                ),
            },
    {
        match from_utf8(name) {
            Some(n) => {
                let mut text = copy_string("&");
                text.push_str(n.as_str());
                text.push_str(";");
                self.on_text(&Some(text))
            },
            None => self.on_text(&None),
        }
    }

    fn on_close(&mut self, name: &str)
        ensures
            final(self)@ == closed_tag(old(self)@, name@),
    {
        if str_eq(name, "value") || str_eq(name, "text") {
            self.in_value = false;
        } else if str_eq(name, "data") || str_eq(name, "action") {
            self.field = None;
        } else if str_eq(name, "event") {
            if let Some(builder) = self.current.take() {
                if let Some(e) = builder.finish() {
                    let ghost before = entry_views(self.entries@);
                    let ghost ev = e@;
                    self.entries.push(e);
                    proof {
                        assert(entry_views(self.entries@) =~= before.push(ev));
                    }
                }
            }
        }
    }

    /// An item was read.
    pub fn on_item(&mut self, item: &XmlItem) -> (r: Result<(), CaptureError>)
        ensures
            match r {
                Ok(_) => item_read(old(self)@, item@) == Ok::<XEventsModel, ErrorView>(final(self)@),
                Err(e) => item_read(old(self)@, item@) == Err::<XEventsModel, ErrorView>(e@),
            },
    {
        match item {
            XmlItem::Open(name, attributes) => self.on_open(name.as_str(), attributes),
            XmlItem::Text(text) => self.on_text(text),
            XmlItem::Reference(name) => self.on_reference(name),
            XmlItem::Close(name) => {
                self.on_close(name.as_str());
                Ok(())
            },
            XmlItem::Other => Ok(()),
            XmlItem::End => Ok(()),
        }
    }
}

proof fn lemma_read_error(items: Seq<XmlModel>, i: int, n: int)
    requires
        0 <= i <= n,
        items_read(items, i) is Err,
    ensures
        items_read(items, n) == items_read(items, i),
    decreases n - i,
{
    if i < n {
        lemma_read_error(items, i, n - 1);
    }
}

/// Reads the events of a document.
pub fn parse_events(data: &[u8]) -> (r: Result<Vec<LogEntry>, CaptureError>)
    ensures
        match r {
            Ok(entries) => items_read(xml_items(data@), xml_items(data@).len() as int) matches Ok(m) && m.entries
                == entry_views(entries@),
            Err(e) => items_read(xml_items(data@), xml_items(data@).len() as int) == Err::<
                XEventsModel,
                ErrorView,
            >(e@),
        },
{
    let mut reader = open_document(data);
    let ghost items = xml_items(data@);
    let ghost mut i: int = 0;
    let mut state = XEventsState::new();
    proof {
        assert(items.skip(0) =~= items);
    }
    loop
        invariant
            items == xml_items(data@),
            is_document(items),
            0 <= i < items.len(),
            unread(reader) == items.skip(i),
            items_read(items, i) == Ok::<XEventsModel, ErrorView>(state@),
        decreases items.len() - i,
    {
        match next_item(&mut reader) {
            Ok(item) => {
                proof {
                    assert(items.skip(i)[0] == items[i]);
                    assert(items.skip(i).skip(1) =~= items.skip(i + 1));
                    assert(item@ == items[i]);
                    assert(items_read(items, i + 1) == item_read(state@, items[i]));
                    i = i + 1;
                }
                match state.on_item(&item) {
                    Ok(_) => {},
                    Err(e) => {
                        proof {
                            lemma_read_error(items, i, items.len() as int);
                        }
                        return Err(e);
                    },
                }
                if let XmlItem::End = item {
                    proof {
                        assert(is_last(items[i - 1]));
                    }
                    return Ok(state.entries);
                }
                proof {
                    assert(!is_last(items[i - 1]));
                    if i == items.len() {
                        assert(items[i - 1] == items.last());
                    }
                }
            },
            Err(_) => {
                proof {
                    assert(items.skip(i)[0] == items[i]);
                    assert(items_read(items, i + 1) == item_read(state@, items[i]));
                    lemma_read_error(items, i + 1, items.len() as int);
                }
                return Err(CaptureError::BadXml);
            },
        }
    }
}

/// SQL Server's Extended Events.
#[derive(Debug)]
pub struct MssqlXEventsCapture;

impl MssqlXEventsCapture {
    /// The workload of a document's entries.
    pub fn build_profile(&self, entries: Vec<LogEntry>, source_host: &str, captured_at: Timestamp) -> (r: Result<
        WorkloadProfile,
        CaptureError,
    >)
        ensures
            outcome(r) == log_workload(
                entry_views(entries@),
                true,
                source_host@,
                "unknown"@,
                "mssql_xevents"@,
                SourceDialect::SqlServer,
                captured_at,
            ),
    {
        build_workload(
            entries,
            true,
            source_host,
            "unknown",
            "mssql_xevents",
            SourceDialect::SqlServer,
            captured_at,
        )
    }

    /// The workload of a document.
    pub fn capture_from_reader(&self, data: &[u8], source_host: &str, captured_at: Timestamp) -> (r: Result<
        WorkloadProfile,
        CaptureError,
    >)
        ensures
            outcome(r) == xevents_workload(xml_items(data@), source_host@, captured_at),
    {
        match parse_events(data) {
            Ok(entries) => self.build_profile(entries, source_host, captured_at),
            Err(e) => Err(e),
        }
    }
}

} // verus!
