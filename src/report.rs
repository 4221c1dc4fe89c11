//! Result report parsing: per-test outcome records out of an XML report.

use vstd::prelude::*;
use quick_xml::events::{BytesStart, Event};
use crate::error::TestamentError;
use crate::model::{TestOutcome, TestResult};
use crate::text::{
    chars_of, digit_value, is_digit, is_str, parse_u64, parse_u64_spec, push_all, split_char,
    split_on, string_of, trim, trimmed,
};

verus! {

#[verifier::external_type_specification]
#[verifier::external_body]
#[verifier::reject_recursive_types(R)]
pub struct ExReader<R>(quick_xml::Reader<R>);

#[verifier::external_type_specification]
#[verifier::external_body]
pub struct ExBytesStart<'a>(BytesStart<'a>);

/// One event of an XML document, with names, attributes and text copied out.
#[derive(Debug)]
pub enum XmlEvent {
    /// An opening tag, with its attributes as (key, value) pairs.
    Start { name: String, attrs: Vec<(String, String)> },
    /// A self-closing tag, with its attributes.
    Empty { name: String, attrs: Vec<(String, String)> },
    /// A closing tag.
    End { name: String },
    /// Character data, unescaped and trimmed.
    Text { text: String },
    /// End of the document.
    Eof,
    /// Anything else: declarations, comments, processing instructions.
    Other,
    /// The document is malformed at this point.
    Invalid { message: String },
}

/// Relies on `quick_xml::events::BytesStart::attributes`: the well-formed
/// attributes of a tag as (key, value) text, in document order.
#[verifier::external_body]
fn attributes_of(e: &BytesStart) -> Vec<(String, String)> {
    e.attributes().flatten().map(|a| (String::from_utf8_lossy(a.key.as_ref()).into_owned(),
        String::from_utf8_lossy(&a.value).into_owned())).collect()
}

/// Relies on `quick_xml::events::BytesStart::name`: the tag's name as text.
#[verifier::external_body]
fn tag_name(e: &BytesStart) -> String {
    String::from_utf8_lossy(e.name().as_ref()).into_owned()
}

/// Relies on `quick_xml::Reader::read_event`: the next event of the document,
/// converted to an `XmlEvent`.
#[verifier::external_body]
fn next_event(reader: &mut quick_xml::Reader<&[u8]>) -> XmlEvent {
    match reader.read_event() {
        Ok(Event::Start(e)) => XmlEvent::Start { name: tag_name(&e), attrs: attributes_of(&e) },
        Ok(Event::Empty(e)) => XmlEvent::Empty { name: tag_name(&e), attrs: attributes_of(&e) },
        Ok(Event::End(e)) => XmlEvent::End { name: String::from_utf8_lossy(e.name().as_ref()).into_owned() },
        Ok(Event::Text(e)) => XmlEvent::Text { text: e.unescape().map(|t| t.into_owned()).unwrap_or_default() },
        Ok(Event::Eof) => XmlEvent::Eof,
        Ok(_) => XmlEvent::Other,
        Err(e) => XmlEvent::Invalid { message: format!("{}", e) },
    }
}

/// A parsed number, or zero when the text is not one.
pub open spec fn num_or_zero(s: Seq<char>) -> nat {
    match parse_u64_spec(s) {
        Some(v) => v as nat,
        None => 0,
    }
}

/// Value of the `i`-th fraction digit, zero when absent or not a digit.
pub open spec fn frac_digit(f: Seq<char>, i: int) -> nat {
    if 0 <= i < f.len() && is_digit(f[i]) {
        digit_value(f[i])
    } else {
        0
    }
}

/// Milliseconds of an `HH:MM:SS[.fraction]` duration: the fraction is read as
/// exactly three digits, padded or truncated; text of another shape gives zero.
/// A value beyond 64 bits saturates.
pub open spec fn duration_ms_spec(s: Seq<char>) -> u64 {
    let parts = split_on(s, ':');
    if parts.len() != 3 {
        0
    } else {
        let secs = split_on(parts[2], '.');
        let millis = if secs.len() > 1 {
            frac_digit(secs[1], 0) * 100 + frac_digit(secs[1], 1) * 10 + frac_digit(secs[1], 2)
        } else {
            0
        };
        let total = (num_or_zero(parts[0]) * 3600 + num_or_zero(parts[1]) * 60 + num_or_zero(secs[0]))
            * 1000 + millis;
        if total > u64::MAX {
            u64::MAX
        } else {
            total as u64
        }
    }
}

fn number_or_zero(s: &[char]) -> (r: u64)
    ensures
        r == num_or_zero(s@),
{
    match parse_u64(s) {
        Some(v) => v,
        None => 0,
    }
}

fn fraction_digit(f: &[char], i: usize) -> (r: u64)
    ensures
        r == frac_digit(f@, i as int),
        r <= 9,
{
    if i < f.len() && '0' <= f[i] && f[i] <= '9' {
        (f[i] as u32 - '0' as u32) as u64
    } else {
        0
    }
}

proof fn lemma_split_nonempty(s: Seq<char>, c: char)
    ensures
        split_on(s, c).len() >= 1,
{
}

/// Milliseconds of an `HH:MM:SS[.fraction]` duration.
pub fn parse_duration(s: &str) -> (r: u64)
    ensures
        r == duration_ms_spec(s@),
{
    let cs = chars_of(s);
    let parts = split_char(cs.as_slice(), ':');
    let ghost pv = parts@.map_values(|l: Vec<char>| l@);
    if parts.len() != 3 {
        return 0;
    }
    assert(pv[0] == parts@[0]@ && pv[1] == parts@[1]@ && pv[2] == parts@[2]@);
    let hours = number_or_zero(parts[0].as_slice());
    let minutes = number_or_zero(parts[1].as_slice());
    let secs = split_char(parts[2].as_slice(), '.');
    let ghost sv = secs@.map_values(|l: Vec<char>| l@);
    proof {
        lemma_split_nonempty(pv[2], '.');
    }
    assert(sv[0] == secs@[0]@);
    let seconds = number_or_zero(secs[0].as_slice());
    let millis: u64 = if secs.len() > 1 {
        assert(sv[1] == secs@[1]@);
        let f = secs[1].as_slice();
        fraction_digit(f, 0) * 100 + fraction_digit(f, 1) * 10 + fraction_digit(f, 2)
    } else {
        0
    };
    let h = hours as u128;
    let m = minutes as u128;
    let sec = seconds as u128;
    assert(h * 3600 + m * 60 + sec <= 0x1_0000_0000_0000_0000 * 3661) by (nonlinear_arith)
        requires
            h < 0x1_0000_0000_0000_0000,
            m < 0x1_0000_0000_0000_0000,
            sec < 0x1_0000_0000_0000_0000,
    ;
    let base = h * 3600 + m * 60 + sec;
    assert(base * 1000 + 999 < 0x1_0000_0000_0000_0000 * 3661 * 1000 + 1000) by (nonlinear_arith)
        requires
            base <= 0x1_0000_0000_0000_0000 * 3661,
    ;
    let total: u128 = base * 1000 + millis as u128;
    if total > u64::MAX as u128 {
        u64::MAX
    } else {
        total as u64
    }
}

/// The outcome that an outcome token stands for.
pub open spec fn outcome_of(v: Seq<char>) -> TestOutcome {
    if v == "Passed"@ {
        TestOutcome::Passed
    } else if v == "Failed"@ {
        TestOutcome::Failed
    } else {
        TestOutcome::Skipped
    }
}

/// The outcome of a report record: "Passed", "Failed", and anything else skipped.
pub fn outcome_from(token: &str) -> (r: TestOutcome)
    ensures
        r == outcome_of(token@),
{
    let t = chars_of(token);
    if is_str(t.as_slice(), "Passed") {
        TestOutcome::Passed
    } else if is_str(t.as_slice(), "Failed") {
        TestOutcome::Failed
    } else {
        TestOutcome::Skipped
    }
}

pub open spec fn attrs_view(a: Seq<(String, String)>) -> Seq<(Seq<char>, Seq<char>)> {
    a.map_values(|p: (String, String)| (p.0@, p.1@))
}

/// (name, outcome, duration) that a result element's attributes give; a later
/// attribute of the same key wins, absent ones leave "", Skipped and 0.
pub open spec fn record_fields(attrs: Seq<(Seq<char>, Seq<char>)>) -> (Seq<char>, TestOutcome, u64)
    decreases attrs.len(),
{
    if attrs.len() == 0 {
        (Seq::empty(), TestOutcome::Skipped, 0)
    } else {
        let prev = record_fields(attrs.drop_last());
        let (k, v) = attrs.last();
        if k == "testName"@ {
            (v, prev.1, prev.2)
        } else if k == "outcome"@ {
            (prev.0, outcome_of(v), prev.2)
        } else if k == "duration"@ {
            (prev.0, prev.1, duration_ms_spec(v))
        } else {
            prev
        }
    }
}

/// Reads name, outcome and duration from a result element's attributes.
pub fn fields_from_attributes(attrs: &Vec<(String, String)>) -> (r: (String, TestOutcome, u64))
    ensures
        (r.0@, r.1, r.2) == record_fields(attrs_view(attrs@)),
{
    let ghost av = attrs_view(attrs@);
    let mut name = string_of(&[]);
    let mut outcome = TestOutcome::Skipped;
    let mut duration: u64 = 0;
    let mut i: usize = 0;
    assert(av.subrange(0, 0) =~= Seq::<(Seq<char>, Seq<char>)>::empty());
    while i < attrs.len()
        invariant
            i <= attrs@.len(),
            av == attrs_view(attrs@),
            (name@, outcome, duration) == record_fields(av.subrange(0, i as int)),
        decreases attrs@.len() - i,
    {
        assert(av.subrange(0, i + 1).drop_last() =~= av.subrange(0, i as int));
        assert(av.subrange(0, i + 1).last() == (attrs@[i as int].0@, attrs@[i as int].1@));
        let k = chars_of(attrs[i].0.as_str());
        if is_str(k.as_slice(), "testName") {
            name = attrs[i].1.clone();
        } else if is_str(k.as_slice(), "outcome") {
            outcome = outcome_from(attrs[i].1.as_str());
        } else if is_str(k.as_slice(), "duration") {
            duration = parse_duration(attrs[i].1.as_str());
        }
        i = i + 1;
    }
    assert(av.subrange(0, i as int) =~= av);
    (name, outcome, duration)
}

/// A record as plain values: name, outcome, duration, failure text.
pub type RecordView = (Seq<char>, TestOutcome, u64, Option<Seq<char>>);

pub open spec fn record_view(r: TestResult) -> RecordView {
    (r.test_name@, r.outcome, r.duration_ms, match r.error_message {
        Some(m) => Some(m@),
        None => None,
    })
}

pub open spec fn records_view(v: Seq<TestResult>) -> Seq<RecordView> {
    v.map_values(|r: TestResult| record_view(r))
}

/// Where the reader stands between two events.
pub struct ReportState {
    pub results: Vec<TestResult>,
    pub current: Option<TestResult>,
    pub in_error_info: bool,
    pub in_message: bool,
    pub in_stack_trace: bool,
    pub message: Vec<char>,
    pub stack_trace: Vec<char>,
}

/// The reader's state as plain values.
pub struct ReportView {
    pub results: Seq<RecordView>,
    pub current: Option<RecordView>,
    pub in_error_info: bool,
    pub in_message: bool,
    pub in_stack_trace: bool,
    pub message: Seq<char>,
    pub stack_trace: Seq<char>,
}

impl View for ReportState {
    type V = ReportView;

    open spec fn view(&self) -> ReportView {
        ReportView {
            results: records_view(self.results@),
            current: match self.current {
                Some(c) => Some(record_view(c)),
                None => None,
            },
            in_error_info: self.in_error_info,
            in_message: self.in_message,
            in_stack_trace: self.in_stack_trace,
            message: self.message@,
            stack_trace: self.stack_trace@,
        }
    }
}

pub open spec fn initial_report() -> ReportView {
    ReportView {
        results: Seq::empty(),
        current: None,
        in_error_info: false,
        in_message: false,
        in_stack_trace: false,
        message: Seq::empty(),
        stack_trace: Seq::empty(),
    }
}

/// Failure text: the trimmed message and the trimmed stack trace, joined by a
/// blank line; none when both are empty.
pub open spec fn failure_text(message: Seq<char>, stack: Seq<char>) -> Option<Seq<char>> {
    if message.len() == 0 && stack.len() == 0 {
        None
    } else if stack.len() == 0 {
        Some(trim(message))
    } else if trim(message).len() == 0 {
        Some(trim(stack))
    } else {
        Some(trim(message) + seq!['\n', '\n'] + trim(stack))
    }
}

/// What one event does to the reader's state.
pub open spec fn step(st: ReportView, ev: XmlEvent) -> ReportView {
    match ev {
        XmlEvent::Start { name, attrs } => {
            if name@ == "UnitTestResult"@ {
                let f = record_fields(attrs_view(attrs@));
                if f.0.len() > 0 {
                    ReportView { current: Some((f.0, f.1, f.2, None)), ..st }
                } else {
                    st
                }
            } else if name@ == "ErrorInfo"@ {
                ReportView { in_error_info: true, ..st }
            } else if name@ == "Message"@ && st.in_error_info {
                ReportView { in_message: true, ..st }
            } else if name@ == "StackTrace"@ && st.in_error_info {
                ReportView { in_stack_trace: true, ..st }
            } else {
                st
            }
        },
        XmlEvent::Empty { name, attrs } => {
            let f = record_fields(attrs_view(attrs@));
            if name@ == "UnitTestResult"@ && f.0.len() > 0 {
                ReportView { results: st.results.push((f.0, f.1, f.2, None)), ..st }
            } else {
                st
            }
        },
        XmlEvent::Text { text } => {
            if st.in_message {
                ReportView { message: st.message + text@, ..st }
            } else if st.in_stack_trace {
                ReportView { stack_trace: st.stack_trace + text@, ..st }
            } else {
                st
            }
        },
        XmlEvent::End { name } => {
            if name@ == "UnitTestResult"@ {
                match st.current {
                    Some(c) => ReportView {
                        results: st.results.push(
                            (c.0, c.1, c.2, failure_text(st.message, st.stack_trace)),
                        ),
                        current: None,
                        message: Seq::empty(),
                        stack_trace: Seq::empty(),
                        ..st
                    },
                    None => st,
                }
            } else if name@ == "ErrorInfo"@ {
                ReportView { in_error_info: false, ..st }
            } else if name@ == "Message"@ {
                ReportView { in_message: false, ..st }
            } else if name@ == "StackTrace"@ {
                ReportView { in_stack_trace: false, ..st }
            } else {
                st
            }
        },
        _ => st,
    }
}

/// The records of an event sequence, read up to its end; the text of the
/// first malformation instead, if one comes first.
pub open spec fn run_events(st: ReportView, evs: Seq<XmlEvent>) -> Result<Seq<RecordView>, Seq<char>>
    decreases evs.len(),
{
    if evs.len() == 0 {
        Ok(st.results)
    } else {
        match evs[0] {
            XmlEvent::Eof => Ok(st.results),
            XmlEvent::Invalid { message } => Err(message@),
            _ => run_events(step(st, evs[0]), evs.drop_first()),
        }
    }
}

fn failure_of(message: &Vec<char>, stack: &Vec<char>) -> (r: Option<String>)
    ensures
        match r {
            Some(t) => failure_text(message@, stack@) == Some(t@),
            None => failure_text(message@, stack@) is None,
        },
{
    if message.len() == 0 && stack.len() == 0 {
        return None;
    }
    let mut full = trimmed(message.as_slice());
    if stack.len() > 0 {
        if full.len() > 0 {
            full.push('\n');
            full.push('\n');
        }
        let st = trimmed(stack.as_slice());
        push_all(&mut full, st.as_slice());
        proof {
            if trim(message@).len() == 0 {
                assert(full@ =~= trim(stack@));
            } else {
                assert(full@ =~= trim(message@) + seq!['\n', '\n'] + trim(stack@));
            }
        }
    }
    Some(string_of(full.as_slice()))
}

impl ReportState {
    pub fn new() -> (r: Self)
        ensures
            r@ == initial_report(),
    {
        let r = ReportState {
            results: Vec::new(),
            current: None,
            in_error_info: false,
            in_message: false,
            in_stack_trace: false,
            message: Vec::new(),
            stack_trace: Vec::new(),
        };
        assert(r@.results =~= Seq::<RecordView>::empty());
        assert(r@.message =~= Seq::<char>::empty());
        assert(r@.stack_trace =~= Seq::<char>::empty());
        r
    }

    /// Applies one event.
    pub fn apply(&mut self, ev: &XmlEvent)
        ensures
            final(self)@ == step(old(self)@, *ev),
    {
        let ghost st = self@;
        match ev {
            XmlEvent::Start { name, attrs } => {
                let n = chars_of(name.as_str());
                if is_str(n.as_slice(), "UnitTestResult") {
                    let (test_name, outcome, duration_ms) = fields_from_attributes(attrs);
                    if test_name.as_str().is_empty() {
                    } else {
                        self.current = Some(
                            TestResult { test_name, outcome, duration_ms, error_message: None },
                        );
                    }
                } else if is_str(n.as_slice(), "ErrorInfo") {
                    self.in_error_info = true;
                } else if is_str(n.as_slice(), "Message") && self.in_error_info {
                    self.in_message = true;
                } else if is_str(n.as_slice(), "StackTrace") && self.in_error_info {
                    self.in_stack_trace = true;
                }
            },
            XmlEvent::Empty { name, attrs } => {
                let n = chars_of(name.as_str());
                let (test_name, outcome, duration_ms) = fields_from_attributes(attrs);
                if is_str(n.as_slice(), "UnitTestResult") && !test_name.as_str().is_empty() {
                    let r = TestResult { test_name, outcome, duration_ms, error_message: None };
                    self.results.push(r);
                    assert(self@.results =~= st.results.push(record_view(r)));
                }
            },
            XmlEvent::Text { text } => {
                let t = chars_of(text.as_str());
                if self.in_message {
                    push_all(&mut self.message, t.as_slice());
                } else if self.in_stack_trace {
                    push_all(&mut self.stack_trace, t.as_slice());
                }
            },
            XmlEvent::End { name } => {
                let n = chars_of(name.as_str());
                if is_str(n.as_slice(), "UnitTestResult") {
                    match self.current.take() {
                        Some(c) => {
                            let err = failure_of(&self.message, &self.stack_trace);
                            let r = TestResult { error_message: err, ..c };
                            self.results.push(r);
                            assert(self@.results =~= st.results.push(record_view(r)));
                            self.message = Vec::new();
                            self.stack_trace = Vec::new();
                            assert(self@.message =~= Seq::<char>::empty());
                            assert(self@.stack_trace =~= Seq::<char>::empty());
                        },
                        None => {},
                    }
                } else if is_str(n.as_slice(), "ErrorInfo") {
                    self.in_error_info = false;
                } else if is_str(n.as_slice(), "Message") {
                    self.in_message = false;
                } else if is_str(n.as_slice(), "StackTrace") {
                    self.in_stack_trace = false;
                }
            },
            _ => {},
        }
        assert(self@ =~= step(st, *ev));
    }
}

/// The records of a sequence of report events: one per result element that
/// has a non-empty name, with failure text from nested error detail.
pub fn records_from_events(events: &Vec<XmlEvent>) -> (r: Result<Vec<TestResult>, TestamentError>)
    ensures
        match run_events(initial_report(), events@) {
            Ok(v) => r is Ok && records_view(r->Ok_0@) == v,
            Err(m) => r is Err && r->Err_0 is TrxParse && r->Err_0->TrxParse_0@ == "XML parse error: "@ + m,
        },
{
    let mut st = ReportState::new();
    let mut i: usize = 0;
    assert(events@.subrange(0, events@.len() as int) =~= events@);
    while i < events.len()
        invariant
            i <= events@.len(),
            run_events(st@, events@.subrange(i as int, events@.len() as int)) == run_events(
                initial_report(),
                events@,
            ),
        decreases events@.len() - i,
    {
        let ghost rest = events@.subrange(i as int, events@.len() as int);
        assert(rest[0] == events@[i as int]);
        assert(rest.drop_first() =~= events@.subrange(i + 1, events@.len() as int));
        match &events[i] {
            XmlEvent::Eof => {
                return Ok(st.results);
            },
            XmlEvent::Invalid { message } => {
                let mut v = chars_of("XML parse error: ");
                let m = chars_of(message.as_str());
                push_all(&mut v, m.as_slice());
                return Err(TestamentError::TrxParse(string_of(v.as_slice())));
            },
            ev => {
                st.apply(ev);
            },
        }
        i = i + 1;
    }
    assert(events@.subrange(i as int, events@.len() as int).len() == 0);
    Ok(st.results)
}

/// Name for the events that quick-xml reads from a document, up to and
/// including its end or its first malformation.
pub uninterp spec fn xml_events_of(content: Seq<char>) -> Seq<XmlEvent>;

/// Relies on `quick_xml::Reader::from_str`, set to trim white space around
/// text, and `Reader::read_event`: the document's events in order, up to and
/// including its end or its first malformation.
#[verifier::external_body]
fn read_events(content: &str) -> (r: Vec<XmlEvent>)
    ensures
        r@ == xml_events_of(content@),
{
    let mut reader = quick_xml::Reader::from_str(content);
    reader.config_mut().trim_text(true);
    let mut events = Vec::new();
    loop {
        let ev = next_event(&mut reader);
        let end = matches!(ev, XmlEvent::Eof | XmlEvent::Invalid { .. });
        events.push(ev);
        if end {
            return events;
        }
    }
}

/// Parses an XML result report into per-test outcome records: one per result
/// element with a non-empty name, as `run_events` reads the document's
/// events. A document with no result elements gives an empty list; a
/// malformed one gives `TrxParse`.
pub fn parse_trx(content: &str) -> (r: Result<Vec<TestResult>, TestamentError>)
    ensures
        match run_events(initial_report(), xml_events_of(content@)) {
            Ok(v) => r is Ok && records_view(r->Ok_0@) == v,
            Err(m) => r is Err && r->Err_0 is TrxParse && r->Err_0->TrxParse_0@ == "XML parse error: "@ + m,
        },
{
    let events = read_events(content);
    records_from_events(&events)
}

} // verus!
