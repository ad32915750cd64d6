//! JUnit XML test reports.

use crate::number::{decimal, push_decimal};
use crate::proxy::protocol::opt_view;
use crate::text::{replace, replace_chars, to_chars};
use vstd::prelude::*;

verus! {

/// A threshold that was checked, as a test case. The time is a text.
#[derive(Debug)]
pub struct JunitCase {
    pub name: String,
    pub passed: bool,
    pub time: String,
    pub message: Option<String>,
}

/// The model of a test case.
pub struct CaseView {
    pub name: Seq<char>,
    pub passed: bool,
    pub time: Seq<char>,
    pub message: Option<Seq<char>>,
}

impl View for JunitCase {
    type V = CaseView;

    open spec fn view(&self) -> CaseView {
        CaseView {
            name: self.name@,
            passed: self.passed,
            time: self.time@,
            message: opt_view(self.message),
        }
    }
}

/// The text with the characters that XML reserves written as entities: the
/// ampersand first, so that no entity is escaped again.
pub open spec fn escaped(s: Seq<char>) -> Seq<char> {
    let a = replace(s, seq!['&'], "&amp;"@);
    let b = replace(a, seq!['<'], "&lt;"@);
    let c = replace(b, seq!['>'], "&gt;"@);
    let d = replace(c, seq!['"'], "&quot;"@);
    replace(d, seq!['\''], "&apos;"@)
}

fn replace_char(s: &[char], c: char, with: &str) -> (r: Vec<char>)
    ensures
        r@ == replace(s@, seq![c], with@),
{
    let p: [char; 1] = [c];
    let w = to_chars(with);
    proof {
        assert(p@ =~= seq![c]);
    }
    replace_chars(s, &p, &w)
}

pub fn xml_escape(s: &str) -> (r: String)
    ensures
        r@ == escaped(s@),
{
    let c = to_chars(s);
    let c = replace_char(&c, '&', "&amp;");
    let c = replace_char(&c, '<', "&lt;");
    let c = replace_char(&c, '>', "&gt;");
    let c = replace_char(&c, '"', "&quot;");
    let c = replace_char(&c, '\'', "&apos;");
    crate::text::from_chars(&c)
}

/// The words for a failure without a message.
pub open spec fn failure_message(m: Option<Seq<char>>) -> Seq<char> {
    match m {
        Some(t) => t,
        None => "threshold exceeded"@,
    }
}

/// The lines of a test case.
pub open spec fn case_text(c: CaseView) -> Seq<char> {
    let head = "    <testcase name=\""@ + escaped(c.name) + "\" time=\""@ + c.time;
    if c.passed {
        head + "\"/>\n"@
    } else {
        head + "\">\n"@ + "      <failure message=\""@ + escaped(failure_message(c.message)) + "\"/>\n"@
            + "    </testcase>\n"@
    }
}

/// The lines of the first `n` test cases.
pub open spec fn cases_text(v: Seq<JunitCase>, n: int) -> Seq<char>
    decreases n,
{
    if n <= 0 {
        Seq::empty()
    } else {
        cases_text(v, n - 1) + case_text(v[n - 1]@)
    }
}

/// The number of failed cases among the first `n`.
pub open spec fn failures(v: Seq<JunitCase>, n: int) -> nat
    decreases n,
{
    if n <= 0 {
        0
    } else {
        failures(v, n - 1) + (if v[n - 1].passed { 0nat } else { 1nat })
    }
}

/// A report.
pub open spec fn junit_text(v: Seq<JunitCase>, time: Seq<char>) -> Seq<char> {
    let tests = decimal(v.len());
    let failed = decimal(failures(v, v.len() as int));
    "<?xml version=\"1.0\" encoding=\"UTF-8\"?>\n"@ + "<testsuites tests=\""@ + tests + "\" failures=\""@ + failed
        + "\" time=\""@ + time + "\">\n"@ + "  <testsuite name=\"pg-retest\" tests=\""@ + tests
        + "\" failures=\""@ + failed + "\">\n"@ + cases_text(v, v.len() as int) + "  </testsuite>\n"@
        + "</testsuites>\n"@
}

fn push_case(out: &mut String, c: &JunitCase)
    ensures
        final(out)@ == old(out)@ + case_text(c@),
{
    let ghost before = out@;
    out.push_str("    <testcase name=\"");
    out.push_str(xml_escape(c.name.as_str()).as_str());
    out.push_str("\" time=\"");
    out.push_str(c.time.as_str());
    if c.passed {
        out.push_str("\"/>\n");
    } else {
        out.push_str("\">\n");
        let message = match &c.message {
            Some(m) => xml_escape(m.as_str()),
            None => xml_escape("threshold exceeded"),
        };
        out.push_str("      <failure message=\"");
        out.push_str(message.as_str());
        out.push_str("\"/>\n");
        out.push_str("    </testcase>\n");
    }
    proof {
        assert(out@ =~= before + case_text(c@));
    }
}

/// A JUnit XML test report. `time` is the elapsed time in seconds.
pub fn junit_xml(cases: &[JunitCase], time: &str) -> (r: String)
    ensures
        r@ == junit_text(cases@, time@),
{
    let n = cases.len();
    let mut failed: u64 = 0;
    let mut body = String::new();
    for i in 0..n
        invariant
            n == cases@.len(),
            failed == failures(cases@, i as int),
            failed <= i,
            body@ == cases_text(cases@, i as int),
    {
        push_case(&mut body, &cases[i]);
        if !cases[i].passed {
            failed = failed + 1;
        }
    }
    let mut out = String::new();
    out.push_str("<?xml version=\"1.0\" encoding=\"UTF-8\"?>\n");
    out.push_str("<testsuites tests=\"");
    push_decimal(&mut out, n as u64);
    out.push_str("\" failures=\"");
    push_decimal(&mut out, failed);
    out.push_str("\" time=\"");
    out.push_str(time);
    out.push_str("\">\n");
    out.push_str("  <testsuite name=\"pg-retest\" tests=\"");
    push_decimal(&mut out, n as u64);
    out.push_str("\" failures=\"");
    push_decimal(&mut out, failed);
    out.push_str("\">\n");
    out.push_str(body.as_str());
    out.push_str("  </testsuite>\n");
    out.push_str("</testsuites>\n");
    proof {
        assert(out@ =~= junit_text(cases@, time@));
    }
    out
}

} // verus!
