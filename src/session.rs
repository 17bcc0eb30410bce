//! The trace session: bytes are gathered into lines, each line is split into
//! its command tag and payload, and the payload is decoded according to the
//! tag.

use vstd::prelude::*;

use crate::decode::{
    DecodeError, message_header, parse_queue_line, parse_task_line, parse_tick_line,
    queue_payload, task_payload, tick_header, tick_payload, viewed,
};
use crate::event::{EventView, GeneralEventData};
use crate::text::{
    NumberError, i32_of, parse_i32, same_text, slice_of, split, split_on, string_of, texts, trim,
    trimmed,
};

verus! {

/// The position of the first `c` in `s`, if there is one.
pub open spec fn find(s: Seq<char>, c: char) -> Option<int>
    decreases s.len(),
{
    if s.len() == 0 {
        None
    } else if s[0] == c {
        Some(0)
    } else {
        match find(s.drop_first(), c) {
            Some(i) => Some(i + 1),
            None => None,
        }
    }
}

fn find_char(s: &[char], c: char) -> (r: Option<usize>)
    ensures
        match r {
            Some(i) => find(s@, c) == Some(i as int),
            None => find(s@, c) == None::<int>,
        },
{
    let mut i: usize = 0;
    assert(s@.skip(0) =~= s@);
    while i < s.len()
        invariant
            0 <= i <= s@.len(),
            find(s@, c) == match find(s@.skip(i as int), c) {
                Some(k) => Some(k + i),
                None => None::<int>,
            },
        decreases s@.len() - i,
    {
        if s[i] == c {
            return Some(i);
        }
        assert(s@.skip(i as int).drop_first() =~= s@.skip(i + 1));
        i += 1;
    }
    None
}

/// The text with every `[0m` (the tail of a colour-reset escape) removed,
/// scanning from the left as `str::replace` does.
pub open spec fn strip_reset(s: Seq<char>) -> Seq<char>
    decreases s.len(),
{
    if s.len() >= 3 && s[0] == '[' && s[1] == '0' && s[2] == 'm' {
        strip_reset(s.skip(3))
    } else if s.len() == 0 {
        s
    } else {
        seq![s[0]] + strip_reset(s.drop_first())
    }
}

/// Removes every colour-reset artifact `[0m` from the text.
pub fn remove_reset(s: &[char]) -> (r: Vec<char>)
    ensures
        r@ == strip_reset(s@),
{
    let mut out: Vec<char> = Vec::new();
    let mut i: usize = 0;
    let n = s.len();
    assert(s@.skip(0) =~= s@);
    while i < n
        invariant
            0 <= i <= n == s@.len(),
            strip_reset(s@) == out@ + strip_reset(s@.skip(i as int)),
        decreases n - i,
    {
        let ghost rest = s@.skip(i as int);
        if n - i >= 3 && s[i] == '[' && s[i + 1] == '0' && s[i + 2] == 'm' {
            assert(rest.skip(3) =~= s@.skip(i + 3));
            i += 3;
        } else {
            assert(rest.drop_first() =~= s@.skip(i + 1));
            out.push(s[i]);
            assert(out@ + strip_reset(s@.skip(i + 1)) =~= out@.drop_last() + (seq![s@[i as int]]
                + strip_reset(rest.drop_first())));
            i += 1;
        }
    }
    assert(s@.skip(n as int) =~= Seq::<char>::empty());
    assert(out@ + Seq::<char>::empty() =~= out@);
    out
}

/// The command tag and the raw payload of a line
/// `<level> <time> <TAG>:<payload>`: the head before the first `:` is split
/// at single spaces and its third piece is the tag. A line without `:`, or
/// whose head has fewer than three pieces, carries no command.
pub open spec fn command_of(line: Seq<char>) -> Option<(Seq<char>, Seq<char>)> {
    match find(line, ':') {
        None => None,
        Some(p) => {
            let words = split_on(line.take(p), ' ');
            if words.len() < 3 {
                None
            } else {
                Some((words[2], line.skip(p + 1)))
            }
        },
    }
}

proof fn lemma_find_bounds(s: Seq<char>, c: char)
    ensures
        find(s, c) matches Some(i) ==> 0 <= i < s.len() && s[i] == c,
    decreases s.len(),
{
    if s.len() > 0 && s[0] != c {
        lemma_find_bounds(s.drop_first(), c);
    }
}

/// Splits a line into its command tag and raw payload.
pub fn split_command(line: &[char]) -> (r: Option<(Vec<char>, Vec<char>)>)
    ensures
        match r {
            Some((tag, payload)) => command_of(line@) == Some((tag@, payload@)),
            None => command_of(line@) == None::<(Seq<char>, Seq<char>)>,
        },
{
    proof {
        lemma_find_bounds(line@, ':');
    }
    match find_char(line, ':') {
        None => None,
        Some(p) => {
            let head = slice_of(line, 0, p);
            assert(head@ =~= line@.take(p as int));
            let words = split(head.as_slice(), ' ');
            if words.len() < 3 {
                None
            } else {
                assert(p < line.len());
                let payload = slice_of(line, p + 1, line.len());
                assert(payload@ =~= line@.skip(p + 1));
                assert(texts(words@)[2] == words@[2]@);
                let tag = slice_of(words[2].as_slice(), 0, words[2].len());
                assert(tag@ =~= words@[2]@);
                Some((tag, payload))
            }
        },
    }
}


/// What a complete line meant.
#[derive(Debug)]
pub enum LineOutcome {
    /// No command, or a header row: nothing to report.
    Ignored,
    /// A decoded event.
    Event(GeneralEventData),
    /// A debug payload that could not be decoded; worth a log line.
    Rejected(DecodeError),
    /// A task name was added to the name table.
    Named,
    /// The end-of-session sentinel with its exit code.
    Finished(i32),
    /// The sentinel's exit code could not be read: the outcome of the run is
    /// unknown, and the session ends on this fatal error.
    BadExitCode(NumberError),
    /// A tag that the decoder does not handle, passed through for display.
    Diagnostic { tag: String, payload: String },
}

/// The mathematical value of a line outcome.
pub enum LineView {
    Ignored,
    Event(EventView),
    Rejected(DecodeError),
    Named,
    Finished(i32),
    BadExitCode(NumberError),
    Diagnostic { tag: Seq<char>, payload: Seq<char> },
}

impl View for LineOutcome {
    type V = LineView;

    open spec fn view(&self) -> LineView {
        match self {
            LineOutcome::Ignored => LineView::Ignored,
            LineOutcome::Event(e) => LineView::Event(e@),
            LineOutcome::Rejected(e) => LineView::Rejected(*e),
            LineOutcome::Named => LineView::Named,
            LineOutcome::Finished(c) => LineView::Finished(*c),
            LineOutcome::BadExitCode(e) => LineView::BadExitCode(*e),
            LineOutcome::Diagnostic { tag, payload } => LineView::Diagnostic {
                tag: tag@,
                payload: payload@,
            },
        }
    }
}

/// A decoded debug payload: the header row is passed over in silence.
pub open spec fn debug_outcome(r: Result<EventView, DecodeError>) -> LineView {
    match r {
        Ok(e) => LineView::Event(e),
        Err(DecodeError::HeaderRow) => LineView::Ignored,
        Err(e) => LineView::Rejected(e),
    }
}

/// A name-table entry `task_id,task_name` from a payload `task_id;task_name`.
pub open spec fn name_entry(value: Seq<char>) -> Seq<char> {
    value.map_values(|c: char| if c == ';' { ',' } else { c })
}

/// What a complete line means.
pub open spec fn line_outcome(line: Seq<char>) -> LineView {
    match command_of(line) {
        None => LineView::Ignored,
        Some((tag, raw)) => {
            let value = trimmed(strip_reset(raw));
            if tag == "FINISH_FLAG"@ {
                match i32_of(value) {
                    Ok(c) => LineView::Finished(c),
                    Err(e) => LineView::BadExitCode(e),
                }
            } else if tag == "TASK_DEBUG"@ {
                debug_outcome(task_payload(value))
            } else if tag == "TICK_DEBUG"@ {
                debug_outcome(tick_payload(value))
            } else if tag == "QUEUE_DEBUG"@ {
                debug_outcome(queue_payload(value))
            } else if tag == "TASK_NAME"@ {
                LineView::Named
            } else {
                LineView::Diagnostic { tag: trimmed(tag), payload: strip_reset(raw) }
            }
        },
    }
}

/// The name-table entry that a line adds, if it adds one.
pub open spec fn line_name(line: Seq<char>) -> Option<Seq<char>> {
    match command_of(line) {
        Some((tag, raw)) => if tag == "TASK_NAME"@ {
            Some(name_entry(trimmed(strip_reset(raw))))
        } else {
            None
        },
        None => None,
    }
}

fn debug_result(r: Result<GeneralEventData, DecodeError>) -> (o: LineOutcome)
    ensures
        o@ == debug_outcome(viewed(r)),
{
    match r {
        Ok(e) => LineOutcome::Event(e),
        Err(DecodeError::HeaderRow) => LineOutcome::Ignored,
        Err(e) => LineOutcome::Rejected(e),
    }
}

fn to_name_entry(value: &[char]) -> (r: Vec<char>)
    ensures
        r@ == name_entry(value@),
{
    let mut r: Vec<char> = Vec::new();
    let mut i: usize = 0;
    while i < value.len()
        invariant
            0 <= i <= value@.len(),
            r@ == name_entry(value@.take(i as int)),
        decreases value@.len() - i,
    {
        let c = value[i];
        r.push(if c == ';' { ',' } else { c });
        i += 1;
        assert(r@ =~= name_entry(value@.take(i as int)));
    }
    assert(value@.take(value@.len() as int) =~= value@);
    r
}

/// Decodes one complete line; a name-table entry, if the line carries one,
/// is returned beside the outcome.
pub fn decode_line(line: &[char]) -> (r: (LineOutcome, Option<String>))
    ensures
        r.0@ == line_outcome(line@),
        match r.1 {
            Some(n) => line_name(line@) == Some(n@),
            None => line_name(line@) == None::<Seq<char>>,
        },
{
    match split_command(line) {
        None => (LineOutcome::Ignored, None),
        Some((tag, raw)) => {
            proof {
                reveal_strlit("FINISH_FLAG");
                reveal_strlit("TASK_DEBUG");
                reveal_strlit("TICK_DEBUG");
                reveal_strlit("QUEUE_DEBUG");
                reveal_strlit("TASK_NAME");
            }
            let stripped = remove_reset(raw.as_slice());
            let value = trim(stripped.as_slice());
            if same_text(tag.as_slice(), "FINISH_FLAG") {
                match parse_i32(value.as_slice()) {
                    Ok(c) => (LineOutcome::Finished(c), None),
                    Err(e) => (LineOutcome::BadExitCode(e), None),
                }
            } else if same_text(tag.as_slice(), "TASK_DEBUG") {
                let text = string_of(value.as_slice());
                (debug_result(parse_task_line(text.as_str())), None)
            } else if same_text(tag.as_slice(), "TICK_DEBUG") {
                let text = string_of(value.as_slice());
                (debug_result(parse_tick_line(text.as_str())), None)
            } else if same_text(tag.as_slice(), "QUEUE_DEBUG") {
                let text = string_of(value.as_slice());
                (debug_result(parse_queue_line(text.as_str())), None)
            } else if same_text(tag.as_slice(), "TASK_NAME") {
                let entry = to_name_entry(value.as_slice());
                (LineOutcome::Named, Some(string_of(entry.as_slice())))
            } else {
                let t = trim(tag.as_slice());
                (
                    LineOutcome::Diagnostic {
                        tag: string_of(t.as_slice()),
                        payload: string_of(stripped.as_slice()),
                    },
                    None,
                )
            }
        },
    }
}


/// The state of one trace session: the line being gathered, the task names
/// registered so far, and, once the sentinel has been seen, its exit code or
/// why the code could not be read.
pub struct SerialEventDataIterator {
    return_value: Option<i32>,
    exit_code_error: Option<NumberError>,
    task_names: Vec<String>,
    line: Vec<char>,
}

/// The mathematical value of a session.
pub struct SessionView {
    pub return_value: Option<i32>,
    pub exit_code_error: Option<NumberError>,
    pub task_names: Seq<Seq<char>>,
    pub line: Seq<char>,
}

impl SessionView {
    /// Whether the sentinel has ended the session, with a readable exit code
    /// or not.
    pub open spec fn ended(self) -> bool {
        self.return_value is Some || self.exit_code_error is Some
    }
}

/// The character that a byte of the stream stands for (the byte's code
/// point).
pub open spec fn byte_char(b: u8) -> char {
    b as char
}

impl View for SerialEventDataIterator {
    type V = SessionView;

    closed spec fn view(&self) -> SessionView {
        SessionView {
            return_value: self.return_value,
            exit_code_error: self.exit_code_error,
            task_names: self.task_names@.map_values(|s: String| s@),
            line: self.line@,
        }
    }
}

impl SerialEventDataIterator {
    /// A session that has seen nothing yet.
    pub fn new() -> (r: Self)
        ensures
            r@.return_value is None,
            r@.exit_code_error is None,
            r@.task_names.len() == 0,
            r@.line.len() == 0,
    {
        SerialEventDataIterator {
            return_value: None,
            exit_code_error: None,
            task_names: Vec::new(),
            line: Vec::new(),
        }
    }

    /// The exit code, once the sentinel has ended the session.
    pub fn return_value(&self) -> (r: Option<i32>)
        ensures
            r == self@.return_value,
    {
        self.return_value
    }

    /// The name-table entries `task_id,task_name` registered so far, in
    /// order.
    pub fn task_names(&self) -> (r: &[String])
        ensures
            r@.map_values(|s: String| s@) == self@.task_names,
    {
        self.task_names.as_slice()
    }

    /// Why the sentinel's exit code could not be read, once that has ended
    /// the session. The outcome of the run is then unknown: a fatal error.
    pub fn exit_code_error(&self) -> (r: Option<NumberError>)
        ensures
            r == self@.exit_code_error,
    {
        self.exit_code_error
    }

    /// Whether the sentinel has ended the session, with a readable exit code
    /// or not.
    pub fn is_finished(&self) -> (r: bool)
        ensures
            r == self@.ended(),
    {
        self.return_value.is_some() || self.exit_code_error.is_some()
    }

    /// Takes the next byte of the stream. A newline completes the pending
    /// line, which is decoded and reported; a carriage return is dropped;
    /// any other byte is added to the pending line. The sentinel ends the
    /// session, also when its exit code cannot be read; after that, bytes are
    /// refused and nothing changes.
    pub fn push_byte(&mut self, byte: u8) -> (r: Option<LineOutcome>)
        ensures
            old(self)@.ended() ==> r is None && final(self)@ == old(self)@,
            !old(self)@.ended() ==> {
                let line = old(self)@.line;
                if byte == 10 {
                    &&& r matches Some(o) && o@ == line_outcome(line)
                    &&& final(self)@.line.len() == 0
                    &&& final(self)@.task_names == match line_name(line) {
                        Some(n) => old(self)@.task_names.push(n),
                        None => old(self)@.task_names,
                    }
                    &&& final(self)@.return_value == match line_outcome(line) {
                        LineView::Finished(c) => Some(c),
                        _ => None::<i32>,
                    }
                    &&& final(self)@.exit_code_error == match line_outcome(line) {
                        LineView::BadExitCode(e) => Some(e),
                        _ => None::<NumberError>,
                    }
                } else if byte == 13 {
                    r is None && final(self)@ == old(self)@
                } else {
                    &&& r is None
                    &&& final(self)@.line == line.push(byte_char(byte))
                    &&& final(self)@.task_names == old(self)@.task_names
                    &&& final(self)@.return_value is None
                    &&& final(self)@.exit_code_error is None
                }
            },
    {
        if self.return_value.is_some() || self.exit_code_error.is_some() {
            return None;
        }
        if byte == 10 {
            let (outcome, name) = decode_line(self.line.as_slice());
            self.line = Vec::new();
            match name {
                Some(n) => {
                    self.task_names.push(n);
                },
                None => {},
            }
            match outcome {
                LineOutcome::Finished(c) => {
                    self.return_value = Some(c);
                },
                LineOutcome::BadExitCode(e) => {
                    self.exit_code_error = Some(e);
                },
                _ => {},
            }
            Some(outcome)
        } else if byte == 13 {
            None
        } else {
            self.line.push(byte as char);
            None
        }
    }
}


/// Whether `value` is the column header of the debug channel `tag`: the
/// channel's number of fields, the first of them the header's first column.
pub open spec fn is_header_payload(tag: Seq<char>, value: Seq<char>) -> bool {
    let f = split_on(value, ';');
    ||| (tag == "TASK_DEBUG"@ || tag == "QUEUE_DEBUG"@) && f.len() == 7 && trimmed(f[0])
        == message_header()
    ||| tag == "TICK_DEBUG"@ && f.len() == 5 && trimmed(f[0]) == tick_header()
}

/// A line that carries a debug channel's column header gives neither an
/// event nor an error to report.
pub proof fn lemma_header_row_ignored(line: Seq<char>)
    requires
        command_of(line) matches Some((tag, raw)) && is_header_payload(
            tag,
            trimmed(strip_reset(raw)),
        ),
    ensures
        line_outcome(line) == LineView::Ignored,
{
    reveal_strlit("FINISH_FLAG");
    reveal_strlit("TASK_DEBUG");
    reveal_strlit("TICK_DEBUG");
    reveal_strlit("QUEUE_DEBUG");
    let (tag, raw) = command_of(line)->Some_0;
    let value = trimmed(strip_reset(raw));
    if tag == "TASK_DEBUG"@ {
        assert("TASK_DEBUG"@[1] != "TICK_DEBUG"@[1]);
        assert(task_payload(value) == Err::<EventView, DecodeError>(DecodeError::HeaderRow));
    } else if tag == "QUEUE_DEBUG"@ {
        assert("QUEUE_DEBUG"@.len() != "TICK_DEBUG"@.len());
        assert(queue_payload(value) == Err::<EventView, DecodeError>(DecodeError::HeaderRow));
    } else {
        assert(tick_payload(value) == Err::<EventView, DecodeError>(DecodeError::HeaderRow));
    }
}

} // verus!
