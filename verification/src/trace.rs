use vstd::prelude::*;

use crate::text::{
    chars_of, comma_fields, decimal, decimal_string, fields_at, has_comma, is_whitespace,
    lemma_decimal, lemma_parse_decimal, lemma_split_commas_append, lemma_split_commas_nonempty,
    lemma_split_commas_single, lemma_trim_trimmed, parse_u64, parse_u64_in, split_commas, trim,
    trim_bounds,
};

verus! {

/// The operation of one trace request.
#[derive(Debug, Clone, Copy, PartialEq, Eq, Structural)]
pub enum Operation {
    Get,
    Put,
    Update,
    Delete,
}

/// The operation that a trace names `s`: `get`, `set`, `update` or `delete`.
pub open spec fn operation_named(s: Seq<char>) -> Option<Operation> {
    if s == "get"@ {
        Some(Operation::Get)
    } else if s == "set"@ {
        Some(Operation::Put)
    } else if s == "update"@ {
        Some(Operation::Update)
    } else if s == "delete"@ {
        Some(Operation::Delete)
    } else {
        None
    }
}

impl Operation {
    pub fn parse(value: &str) -> (r: Result<Self, String>)
        ensures
            r matches Ok(op) ==> operation_named(value@) == Some(op),
            r matches Err(msg) ==> operation_named(value@) is None && msg@
                == "unsupported operation: "@ + value@,
    {
        let v = value.to_owned();
        if v == "get".to_owned() {
            Ok(Operation::Get)
        } else if v == "set".to_owned() {
            Ok(Operation::Put)
        } else if v == "update".to_owned() {
            Ok(Operation::Update)
        } else if v == "delete".to_owned() {
            Ok(Operation::Delete)
        } else {
            let mut msg = "unsupported operation: ".to_owned();
            msg.append(value);
            Err(msg)
        }
    }
}

/// The name a trace uses for `op`.
pub open spec fn op_name(op: Operation) -> Seq<char> {
    match op {
        Operation::Get => "get"@,
        Operation::Put => "set"@,
        Operation::Update => "update"@,
        Operation::Delete => "delete"@,
    }
}

impl Operation {
    pub fn name(self) -> (s: &'static str)
        ensures
            s@ == op_name(self),
    {
        match self {
            Operation::Get => "get",
            Operation::Put => "set",
            Operation::Update => "update",
            Operation::Delete => "delete",
        }
    }
}

/// Names and operations correspond one to one.
pub proof fn lemma_operation_names_round_trip(op: Operation)
    ensures
        operation_named(op_name(op)) == Some(op),
{
    reveal_strlit("get");
    reveal_strlit("set");
    reveal_strlit("update");
    reveal_strlit("delete");
    assert("get"@[0] != "set"@[0]);
    assert("get"@[0] != "update"@[0]);
    assert("get"@[0] != "delete"@[0]);
    assert("set"@[0] != "update"@[0]);
    assert("set"@[0] != "delete"@[0]);
    assert("update"@[0] != "delete"@[0]);
}

/// One request of a trace.
#[derive(Debug, Clone, PartialEq, Eq)]
pub struct TraceEvent {
    pub timestamp: u64,
    pub op: Operation,
    pub key: String,
    pub size: u64,
}

/// Timestamp, operation, key and size of an event.
pub type EventView = (u64, Operation, Seq<char>, u64);

pub open spec fn event_view(e: TraceEvent) -> EventView {
    (e.timestamp, e.op, e.key@, e.size)
}

/// A trace line: four comma-separated fields, each trimmed of whitespace; an unsigned
/// timestamp, an operation name, a non-empty key and an unsigned size. The first
/// field that fails decides the error.
pub open spec fn parse_line(line: Seq<char>) -> Result<EventView, Seq<char>> {
    let f = split_commas(line);
    if f.len() != 4 {
        Err("expected four comma-separated fields"@)
    } else if parse_u64(trim(f[0])) is None {
        Err("timestamp must be an unsigned integer"@)
    } else if operation_named(trim(f[1])) is None {
        Err("unsupported operation: "@ + trim(f[1]))
    } else if trim(f[2]).len() == 0 {
        Err("key must not be empty"@)
    } else if parse_u64(trim(f[3])) is None {
        Err("size must be an unsigned integer"@)
    } else {
        Ok(
            (
                parse_u64(trim(f[0])).unwrap(),
                operation_named(trim(f[1])).unwrap(),
                trim(f[2]),
                parse_u64(trim(f[3])).unwrap(),
            ),
        )
    }
}

pub fn parse_trace_line(line: &str) -> (r: Result<TraceEvent, String>)
    ensures
        r matches Ok(e) ==> parse_line(line@) == Ok::<EventView, Seq<char>>(event_view(e)),
        r matches Err(msg) ==> parse_line(line@) == Err::<EventView, Seq<char>>(msg@),
{
    let cs = chars_of(line);
    let bounds = comma_fields(&cs);
    let ghost f = split_commas(line@);
    if bounds.len() != 4 {
        return Err("expected four comma-separated fields".to_owned());
    }
    assert(f[0] == cs@.subrange(bounds@[0].0 as int, bounds@[0].1 as int));
    assert(f[1] == cs@.subrange(bounds@[1].0 as int, bounds@[1].1 as int));
    assert(f[2] == cs@.subrange(bounds@[2].0 as int, bounds@[2].1 as int));
    assert(f[3] == cs@.subrange(bounds@[3].0 as int, bounds@[3].1 as int));
    let (a0, b0) = trim_bounds(&cs, bounds[0].0, bounds[0].1);
    let timestamp = match parse_u64_in(&cs, a0, b0) {
        Some(t) => t,
        None => {
            return Err("timestamp must be an unsigned integer".to_owned());
        },
    };
    let (a1, b1) = trim_bounds(&cs, bounds[1].0, bounds[1].1);
    let op = match Operation::parse(line.substring_char(a1, b1)) {
        Ok(op) => op,
        Err(msg) => {
            return Err(msg);
        },
    };
    let (a2, b2) = trim_bounds(&cs, bounds[2].0, bounds[2].1);
    if a2 == b2 {
        return Err("key must not be empty".to_owned());
    }
    let key = line.substring_char(a2, b2).to_owned();
    let (a3, b3) = trim_bounds(&cs, bounds[3].0, bounds[3].1);
    let size = match parse_u64_in(&cs, a3, b3) {
        Some(s) => s,
        None => {
            return Err("size must be an unsigned integer".to_owned());
        },
    };
    Ok(TraceEvent { timestamp, op, key, size })
}

/// The trace line of an event: timestamp, operation name, key and size, separated by
/// commas.
pub open spec fn format_line(e: EventView) -> Seq<char> {
    decimal(e.0 as nat) + ","@ + op_name(e.1) + ","@ + e.2 + ","@ + decimal(e.3 as nat)
}

pub fn format_trace_line(e: &TraceEvent) -> (s: String)
    ensures
        s@ == format_line(event_view(*e)),
{
    let mut s = decimal_string(e.timestamp);
    s.append(",");
    s.append(e.op.name());
    s.append(",");
    s.append(e.key.as_str());
    s.append(",");
    let size = decimal_string(e.size);
    s.append(size.as_str());
    s
}

/// A field that stays one field and keeps its text when a line is split and trimmed.
pub open spec fn plain_field(s: Seq<char>) -> bool {
    &&& s.len() > 0
    &&& !has_comma(s)
    &&& !is_whitespace(s[0])
    &&& !is_whitespace(s.last())
}

proof fn lemma_lowercase_is_plain(s: Seq<char>)
    requires
        s.len() > 0,
        forall|i: int| 0 <= i < s.len() ==> 'a' <= #[trigger] s[i] <= 'z',
    ensures
        plain_field(s),
{
    assert('a' <= s[0] <= 'z');
    assert('a' <= s[s.len() - 1] <= 'z');
    if has_comma(s) {
        let i = choose|i: int| 0 <= i < s.len() && s[i] == ',';
        assert('a' <= s[i] <= 'z');
    }
}

proof fn lemma_op_name_plain(op: Operation)
    ensures
        plain_field(op_name(op)),
{
    reveal_strlit("get");
    reveal_strlit("set");
    reveal_strlit("update");
    reveal_strlit("delete");
    let s = op_name(op);
    assert forall|i: int| 0 <= i < s.len() implies 'a' <= #[trigger] s[i] <= 'z' by {
        if i == 0 {
        } else if i == 1 {
        } else if i == 2 {
        } else if i == 3 {
        } else if i == 4 {
        } else {
        }
    }
    lemma_lowercase_is_plain(s);
}

/// Round trip: the line written for an event parses back to the same event, whenever
/// its key is a plain field (non-empty, no comma, no whitespace at either end).
pub proof fn lemma_format_then_parse(e: EventView)
    requires
        plain_field(e.2),
    ensures
        parse_line(format_line(e)) == Ok::<EventView, Seq<char>>(e),
{
    reveal_strlit(",");
    let c = ","@;
    assert(c =~= seq![',']);
    let d1 = decimal(e.0 as nat);
    let o = op_name(e.1);
    let k = e.2;
    let d2 = decimal(e.3 as nat);
    lemma_decimal(e.0 as nat);
    lemma_decimal(e.3 as nat);
    lemma_op_name_plain(e.1);
    let a1 = d1 + c + o;
    let a2 = a1 + c + k;
    let line = a2 + c + d2;
    assert(format_line(e) == line);
    lemma_split_commas_append(a2, d2);
    lemma_split_commas_append(a1, k);
    lemma_split_commas_append(d1, o);
    lemma_split_commas_single(d1);
    lemma_split_commas_single(o);
    lemma_split_commas_single(k);
    lemma_split_commas_single(d2);
    let f = split_commas(line);
    assert(f =~= seq![d1, o, k, d2]);
    lemma_trim_trimmed(d1);
    lemma_trim_trimmed(o);
    lemma_trim_trimmed(k);
    lemma_trim_trimmed(d2);
    lemma_parse_decimal(e.0);
    lemma_parse_decimal(e.3);
    lemma_operation_names_round_trip(e.1);
}

/// The fields of a line are read in their order: for plain fields `a`, `b`, `c`, `d`
/// (non-empty, no comma, no whitespace at either end), the line `a,b,c,d` gives the
/// timestamp from `a`, the operation named by `b`, the key `c` and the size from `d`,
/// whenever `a` and `d` are numbers and `b` names an operation.
pub proof fn lemma_parse_reads_fields_in_order(
    a: Seq<char>,
    b: Seq<char>,
    c: Seq<char>,
    d: Seq<char>,
)
    requires
        plain_field(a),
        plain_field(b),
        plain_field(c),
        plain_field(d),
        parse_u64(a) is Some,
        operation_named(b) is Some,
        parse_u64(d) is Some,
    ensures
        parse_line(a + ","@ + b + ","@ + c + ","@ + d) == Ok::<EventView, Seq<char>>(
            (parse_u64(a).unwrap(), operation_named(b).unwrap(), c, parse_u64(d).unwrap()),
        ),
{
    reveal_strlit(",");
    let k = ","@;
    assert(k =~= seq![',']);
    let a1 = a + k + b;
    let a2 = a1 + k + c;
    let line = a2 + k + d;
    lemma_split_commas_append(a2, d);
    lemma_split_commas_append(a1, c);
    lemma_split_commas_append(a, b);
    lemma_split_commas_single(a);
    lemma_split_commas_single(b);
    lemma_split_commas_single(c);
    lemma_split_commas_single(d);
    assert(split_commas(line) =~= seq![a, b, c, d]);
    lemma_trim_trimmed(a);
    lemma_trim_trimmed(b);
    lemma_trim_trimmed(c);
    lemma_trim_trimmed(d);
}

/// The header line a trace starts with, after trimming.
pub open spec fn trace_header() -> Seq<char> {
    "timestamp,op,key,size"@
}

/// Events of the first `n` lines after the header: blank lines are skipped, and the
/// first bad line gives its error, prefixed with its 1-based line number.
pub open spec fn parse_body(lines: Seq<Seq<char>>, n: nat) -> Result<Seq<EventView>, Seq<char>>
    decreases n,
{
    if n <= 1 {
        Ok(Seq::empty())
    } else {
        match parse_body(lines, (n - 1) as nat) {
            Err(e) => Err(e),
            Ok(events) => {
                let line = lines[n - 1];
                if trim(line).len() == 0 {
                    Ok(events)
                } else {
                    match parse_line(line) {
                        Err(e) => Err("line "@ + decimal(n) + ": "@ + e),
                        Ok(ev) => Ok(events.push(ev)),
                    }
                }
            },
        }
    }
}

proof fn lemma_parse_body_error_stays(lines: Seq<Seq<char>>, n: nat, m: nat)
    requires
        n <= m,
        parse_body(lines, n) is Err,
    ensures
        parse_body(lines, m) == parse_body(lines, n),
    decreases m - n,
{
    if n < m {
        lemma_parse_body_error_stays(lines, n, (m - 1) as nat);
    }
}

/// Events of a whole trace: a header line, then event lines.
pub open spec fn parse_trace_lines(lines: Seq<Seq<char>>) -> Result<Seq<EventView>, Seq<char>> {
    if lines.len() == 0 {
        Err("trace is empty"@)
    } else if trim(lines[0]) != trace_header() {
        Err("trace header must be exactly: timestamp,op,key,size"@)
    } else {
        parse_body(lines, lines.len())
    }
}

pub open spec fn lines_view(lines: Seq<String>) -> Seq<Seq<char>> {
    lines.map_values(|l: String| l@)
}

pub open spec fn events_view(events: Seq<TraceEvent>) -> Seq<EventView> {
    events.map_values(|e: TraceEvent| event_view(e))
}

/// Parses the lines of a trace file.
pub fn parse_trace(lines: &Vec<String>) -> (r: Result<Vec<TraceEvent>, String>)
    ensures
        r matches Ok(events) ==> parse_trace_lines(lines_view(lines@)) == Ok::<
            Seq<EventView>,
            Seq<char>,
        >(events_view(events@)),
        r matches Err(msg) ==> parse_trace_lines(lines_view(lines@)) == Err::<
            Seq<EventView>,
            Seq<char>,
        >(msg@),
{
    let ghost ls = lines_view(lines@);
    if lines.len() == 0 {
        return Err("trace is empty".to_owned());
    }
    let header_chars = chars_of(lines[0].as_str());
    let (h0, h1) = trim_bounds(&header_chars, 0, header_chars.len());
    assert(header_chars@.subrange(0, header_chars@.len() as int) =~= ls[0]);
    let header = lines[0].as_str().substring_char(h0, h1).to_owned();
    if header != "timestamp,op,key,size".to_owned() {
        return Err("trace header must be exactly: timestamp,op,key,size".to_owned());
    }
    let mut events: Vec<TraceEvent> = Vec::new();
    let mut i: usize = 1;
    assert(events_view(events@) =~= Seq::<EventView>::empty());
    while i < lines.len()
        invariant
            1 <= i <= lines@.len(),
            ls == lines_view(lines@),
            parse_trace_lines(ls) == parse_body(ls, ls.len()),
            parse_body(ls, i as nat) == Ok::<Seq<EventView>, Seq<char>>(events_view(events@)),
        decreases lines@.len() - i,
    {
        let line = lines[i].as_str();
        assert(line@ == ls[i as int]);
        let cs = chars_of(line);
        let (t0, t1) = trim_bounds(&cs, 0, cs.len());
        assert(cs@.subrange(0, cs@.len() as int) =~= ls[i as int]);
        if t0 < t1 {
            match parse_trace_line(line) {
                Ok(event) => {
                    let ghost before = events@;
                    events.push(event);
                    assert(events_view(events@) =~= events_view(before).push(event_view(event)));
                },
                Err(err) => {
                    let mut msg = "line ".to_owned();
                    let number = decimal_string((i + 1) as u64);
                    msg.append(number.as_str());
                    msg.append(": ");
                    msg.append(err.as_str());
                    proof {
                        assert(parse_body(ls, (i + 1) as nat) == Err::<Seq<EventView>, Seq<char>>(
                            msg@,
                        ));
                        lemma_parse_body_error_stays(ls, (i + 1) as nat, ls.len());
                    }
                    return Err(msg);
                },
            }
        }
        i += 1;
    }
    Ok(events)
}

} // verus!
