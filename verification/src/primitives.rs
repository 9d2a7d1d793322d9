//! Value types decoded from the upstream trace response: spans, tags and
//! references, together with the textual helpers their accessors need.

use vstd::prelude::*;

verus! {

// ---------------------------------------------------------------------------
// Decimal text
// ---------------------------------------------------------------------------

/// True for the ten ASCII digit characters.
pub open spec fn is_dec_digit(c: char) -> bool {
    '0' <= c && c <= '9'
}

/// Numeric value of an ASCII digit character.
pub open spec fn dec_digit_val(c: char) -> nat {
    (c as int - '0' as int) as nat
}

/// The digit character for a value below ten.
pub open spec fn digit_char(d: nat) -> char {
    (('0' as int + d) as char)
}

/// Every character of `s` is an ASCII digit.
pub open spec fn all_dec_digits(s: Seq<char>) -> bool {
    forall|i: int| 0 <= i < s.len() ==> is_dec_digit(s[i])
}

/// The number denoted by a sequence of digit characters, most significant first.
pub open spec fn seq_digits_val(s: Seq<char>) -> nat
    decreases s.len(),
{
    if s.len() == 0 {
        0
    } else {
        seq_digits_val(s.drop_last()) * 10 + dec_digit_val(s.last())
    }
}

/// What parsing a decimal string as a `u64` yields: the denoted value when the
/// string is nonempty, all digits, and within range; nothing otherwise.
pub open spec fn spec_parse_u64(s: Seq<char>) -> Option<u64> {
    if s.len() > 0 && all_dec_digits(s) && seq_digits_val(s) <= u64::MAX {
        Some(seq_digits_val(s) as u64)
    } else {
        None
    }
}

/// The canonical decimal rendering of a number: no leading zero except for zero
/// itself.
pub open spec fn spec_u64_string(n: nat) -> Seq<char>
    decreases n,
{
    if n < 10 {
        seq![digit_char(n)]
    } else {
        spec_u64_string(n / 10).push(digit_char(n % 10))
    }
}

/// Appending further digits never shrinks the denoted value.
proof fn lemma_seq_digits_val_prefix(s: Seq<char>, i: int, j: int)
    requires
        0 <= i <= j <= s.len(),
    ensures
        seq_digits_val(s.take(i)) <= seq_digits_val(s.take(j)),
    decreases j - i,
{
    if i < j {
        lemma_seq_digits_val_prefix(s, i, j - 1);
        assert(s.take(j).drop_last() =~= s.take(j - 1));
        assert(seq_digits_val(s.take(j)) == seq_digits_val(s.take(j - 1)) * 10 + dec_digit_val(
            s.take(j).last(),
        ));
        assert(seq_digits_val(s.take(j - 1)) * 10 >= seq_digits_val(s.take(j - 1))) by (nonlinear_arith);
    }
}

/// Parse a decimal string, exactly as [`spec_parse_u64`] describes.
pub fn parse_u64(s: &str) -> (r: Option<u64>)
    ensures
        r == spec_parse_u64(s@),
{
    let n = s.unicode_len();
    if n == 0 {
        return None;
    }
    let mut acc: u64 = 0;
    let mut i: usize = 0;
    while i < n
        invariant
            0 < n == s@.len(),
            0 <= i <= n,
            all_dec_digits(s@.take(i as int)),
            acc == seq_digits_val(s@.take(i as int)),
        decreases n - i,
    {
        let c = s.get_char(i);
        if !('0' <= c && c <= '9') {
            assert(!is_dec_digit(s@[i as int]));
            return None;
        }
        let d: u64 = (c as u32 - '0' as u32) as u64;
        assert(d == dec_digit_val(s@[i as int]));
        assert(s@.take(i + 1).drop_last() =~= s@.take(i as int));
        assert(s@.take(i + 1).last() == s@[i as int]);
        if acc > (u64::MAX - d) / 10 {
            proof {
                assert(acc * 10 + d > u64::MAX) by (nonlinear_arith)
                    requires
                        acc > (u64::MAX - d) / 10,
                        d <= 9,
                ;
                lemma_seq_digits_val_prefix(s@, i + 1, s@.len() as int);
                assert(s@.take(s@.len() as int) =~= s@);
            }
            return None;
        }
        proof {
            assert(acc * 10 + d <= u64::MAX) by (nonlinear_arith)
                requires
                    acc <= (u64::MAX - d) / 10,
                    d <= 9,
            ;
        }
        acc = acc * 10 + d;
        i = i + 1;
    }
    assert(s@.take(n as int) =~= s@);
    Some(acc)
}

/// The one-character string for a digit value.
fn dec_digit_str(d: u64) -> (r: &'static str)
    requires
        d < 10,
    ensures
        r@ =~= seq![digit_char(d as nat)],
{
    proof {
        reveal_strlit("0");
        reveal_strlit("1");
        reveal_strlit("2");
        reveal_strlit("3");
        reveal_strlit("4");
        reveal_strlit("5");
        reveal_strlit("6");
        reveal_strlit("7");
        reveal_strlit("8");
        reveal_strlit("9");
    }
    match d {
        0 => "0",
        1 => "1",
        2 => "2",
        3 => "3",
        4 => "4",
        5 => "5",
        6 => "6",
        7 => "7",
        8 => "8",
        _ => "9",
    }
}

/// Render a number in decimal, exactly as [`spec_u64_string`] describes.
pub fn u64_to_string(n: u64) -> (r: String)
    ensures
        r@ == spec_u64_string(n as nat),
    decreases n,
{
    if n < 10 {
        dec_digit_str(n).to_owned()
    } else {
        let prefix = u64_to_string(n / 10);
        prefix.concat(dec_digit_str(n % 10))
    }
}

/// The textual rendering of a boolean tag value.
pub open spec fn spec_bool_string(b: bool) -> Seq<char> {
    if b {
        "true"@
    } else {
        "false"@
    }
}

// ---------------------------------------------------------------------------
// Tags
// ---------------------------------------------------------------------------

/// The value carried by a span tag: the upstream schema allows strings,
/// booleans and numbers.
#[derive(Debug, Clone, PartialEq)]
pub enum TagValue {
    String(String),
    Boolean(bool),
    Number(u64),
}

impl TagValue {
    /// The textual form of this value: strings verbatim, booleans as
    /// `true`/`false`, numbers in decimal.
    pub open spec fn spec_string(self) -> Seq<char> {
        match self {
            TagValue::String(s) => s@,
            TagValue::Boolean(b) => spec_bool_string(b),
            TagValue::Number(n) => spec_u64_string(n as nat),
        }
    }

    /// Render this value as text, exactly as [`TagValue::spec_string`] describes.
    pub fn to_string(&self) -> (r: String)
        ensures
            r@ == self.spec_string(),
    {
        match self {
            TagValue::String(s) => s.clone(),
            TagValue::Boolean(b) => {
                if *b {
                    "true".to_owned()
                } else {
                    "false".to_owned()
                }
            },
            TagValue::Number(n) => u64_to_string(*n),
        }
    }
}

/// One key/value annotation on a span.
#[derive(Debug, Clone, PartialEq)]
pub struct Tag {
    pub key: String,
    pub ty: String,
    pub value: TagValue,
}

impl Tag {
    pub fn new(key: String, ty: String, value: TagValue) -> (t: Tag)
        ensures
            t.key == key,
            t.ty == ty,
            t.value == value,
    {
        Tag { key, ty, value }
    }

    /// The textual form of this tag's value.
    pub fn value(&self) -> (r: String)
        ensures
            r@ == self.value.spec_string(),
    {
        self.value.to_string()
    }
}

/// The first tag of `tags` whose key reads `key`, if any.
pub open spec fn spec_get_tag(tags: Seq<Tag>, key: Seq<char>) -> Option<Tag>
    decreases tags.len(),
{
    if tags.len() == 0 {
        None
    } else if tags[0].key@ == key {
        Some(tags[0])
    } else {
        spec_get_tag(tags.drop_first(), key)
    }
}

// ---------------------------------------------------------------------------
// References, processes, spans
// ---------------------------------------------------------------------------

/// A link from a span to another span, such as its parent.
#[derive(Debug, Clone, PartialEq)]
pub struct Reference {
    pub ref_type: String,
    pub trace_id: String,
    pub span_id: String,
}

/// The process a span was reported from.
#[derive(Debug, Clone, PartialEq)]
pub struct Process {
    pub service_name: String,
    pub tags: Vec<Tag>,
}

/// The span id named by the first parent (`CHILD_OF`) reference, if any.
pub open spec fn spec_parent_span_id(refs: Seq<Reference>) -> Option<Seq<char>>
    decreases refs.len(),
{
    if refs.len() == 0 {
        None
    } else if refs[0].ref_type@ == "CHILD_OF"@ {
        Some(refs[0].span_id@)
    } else {
        spec_parent_span_id(refs.drop_first())
    }
}

/// One timed unit of work in a trace. Times are in microseconds; the duration
/// is kept at microsecond granularity as an integer.
#[derive(Debug, Clone, PartialEq)]
pub struct Span {
    pub trace_id: String,
    pub span_id: String,
    pub flags: Option<u64>,
    pub operation_name: String,
    pub references: Vec<Reference>,
    pub start_time: u64,
    pub duration: u64,
    pub tags: Vec<Tag>,
    pub process_id: String,
    pub warnings: Option<Vec<String>>,
}

impl Span {
    /// Get the first tag under `key`, exactly as [`spec_get_tag`] describes.
    pub fn get_tag(&self, key: &str) -> (r: Option<&Tag>)
        ensures
            match r {
                Some(t) => spec_get_tag(self.tags@, key@) == Some(*t),
                None => spec_get_tag(self.tags@, key@) is None,
            },
    {
        let key_string = key.to_owned();
        let n = self.tags.len();
        assert(self.tags@.skip(0) =~= self.tags@);
        let mut i: usize = 0;
        while i < n
            invariant
                0 <= i <= n == self.tags@.len(),
                key_string@ == key@,
                spec_get_tag(self.tags@, key@) == spec_get_tag(self.tags@.skip(i as int), key@),
            decreases n - i,
        {
            assert(self.tags@.skip(i as int)[0] == self.tags@[i as int]);
            if self.tags[i].key == key_string {
                return Some(&self.tags[i]);
            }
            assert(self.tags@.skip(i as int).drop_first() =~= self.tags@.skip(i + 1));
            i = i + 1;
        }
        assert(self.tags@.skip(n as int) =~= Seq::<Tag>::empty());
        None
    }

    /// The id of this span's parent, read from its first `CHILD_OF` reference;
    /// exactly as [`spec_parent_span_id`] describes.
    pub fn parent_span_id(&self) -> (r: Option<String>)
        ensures
            match r {
                Some(id) => spec_parent_span_id(self.references@) == Some(id@),
                None => spec_parent_span_id(self.references@) is None,
            },
    {
        let child_of = "CHILD_OF".to_owned();
        let n = self.references.len();
        assert(self.references@.skip(0) =~= self.references@);
        let mut i: usize = 0;
        while i < n
            invariant
                0 <= i <= n == self.references@.len(),
                child_of@ == "CHILD_OF"@,
                spec_parent_span_id(self.references@) == spec_parent_span_id(
                    self.references@.skip(i as int),
                ),
            decreases n - i,
        {
            assert(self.references@.skip(i as int)[0] == self.references@[i as int]);
            if self.references[i].ref_type == child_of {
                return Some(self.references[i].span_id.clone());
            }
            assert(self.references@.skip(i as int).drop_first() =~= self.references@.skip(i + 1));
            i = i + 1;
        }
        assert(self.references@.skip(n as int) =~= Seq::<Reference>::empty());
        None
    }
}

// ---------------------------------------------------------------------------
// Traces
// ---------------------------------------------------------------------------

/// The first span of `spans` whose id reads `id`, if any.
pub open spec fn spec_get_span(spans: Seq<Span>, id: Seq<char>) -> Option<Span>
    decreases spans.len(),
{
    if spans.len() == 0 {
        None
    } else if spans[0].span_id@ == id {
        Some(spans[0])
    } else {
        spec_get_span(spans.drop_first(), id)
    }
}

/// No two spans of `spans` share an id.
pub open spec fn unique_span_ids(spans: Seq<Span>) -> bool {
    forall|i: int, j: int|
        0 <= i < j < spans.len() ==> spans[i].span_id@ != spans[j].span_id@
}

/// Adding one span to a map of spans: a span with the same id is replaced in
/// place, otherwise the new span is appended.
pub open spec fn spec_insert_span(acc: Seq<Span>, s: Span) -> Seq<Span> {
    if exists|j: int| 0 <= j < acc.len() && acc[j].span_id@ == s.span_id@ {
        let j = choose|j: int| 0 <= j < acc.len() && acc[j].span_id@ == s.span_id@;
        acc.update(j, s)
    } else {
        acc.push(s)
    }
}

/// The span map a list of decoded spans denotes: later spans with an already
/// seen id replace the earlier ones.
pub open spec fn spec_span_map(spans: Seq<Span>) -> Seq<Span>
    decreases spans.len(),
{
    if spans.len() == 0 {
        Seq::<Span>::empty()
    } else {
        spec_insert_span(spec_span_map(spans.drop_last()), spans.last())
    }
}

/// The full set of spans sharing one trace id, keyed by span id (ids unique).
#[derive(Debug, Clone, PartialEq)]
pub struct TraceObject {
    pub trace_id: String,
    pub spans: Vec<Span>,
    pub processes: Vec<(String, Process)>,
    pub warnings: Option<Vec<String>>,
}

impl TraceObject {
    /// Span ids are unique within the trace.
    pub open spec fn wf(self) -> bool {
        unique_span_ids(self.spans@)
    }

    /// Build a trace from decoded spans, keying them by span id exactly as
    /// [`spec_span_map`] describes: a repeated id keeps only the later span.
    pub fn new(
        trace_id: String,
        spans: Vec<Span>,
        processes: Vec<(String, Process)>,
        warnings: Option<Vec<String>>,
    ) -> (t: TraceObject)
        ensures
            t.wf(),
            t.trace_id == trace_id,
            t.spans@ == spec_span_map(spans@),
            t.processes == processes,
            t.warnings == warnings,
    {
        let ghost all = spans@;
        let mut spans = spans;
        let mut acc: Vec<Span> = Vec::new();
        let ghost mut done: Seq<Span> = Seq::empty();
        assert(done + spans@ =~= all);
        assert(acc@ =~= spec_span_map(done));
        while spans.len() > 0
            invariant
                done + spans@ == all,
                acc@ == spec_span_map(done),
                unique_span_ids(acc@),
            decreases spans@.len(),
        {
            let ghost before = spans@;
            let s = spans.remove(0);
            let ghost done_next = done.push(s);
            proof {
                assert(done_next + spans@ =~= done + before);
                assert(done_next.drop_last() =~= done);
            }
            // find a span already registered under this id
            let mut found: Option<usize> = None;
            let m = acc.len();
            let mut j: usize = 0;
            while j < m
                invariant
                    0 <= j <= m == acc@.len(),
                    match found {
                        Some(f) => 0 <= f < j && acc@[f as int].span_id@ == s.span_id@,
                        None => forall|k: int| 0 <= k < j ==> acc@[k].span_id@ != s.span_id@,
                    },
                decreases m - j,
            {
                if found.is_none() && acc[j].span_id == s.span_id {
                    found = Some(j);
                }
                j = j + 1;
            }
            let ghost acc_old = acc@;
            match found {
                Some(f) => {
                    proof {
                        let j0 = choose|j0: int|
                            0 <= j0 < acc@.len() && acc@[j0].span_id@ == s.span_id@;
                        assert(j0 == f as int);
                    }
                    acc[f] = s;
                    proof {
                        assert(acc@ =~= spec_insert_span(acc_old, s));
                        assert(forall|k: int|
                            0 <= k < acc@.len() ==> acc@[k].span_id@ == acc_old[k].span_id@);
                    }
                },
                None => {
                    acc.push(s);
                    proof {
                        assert(acc@ =~= spec_insert_span(acc_old, s));
                    }
                },
            }
            proof {
                done = done_next;
            }
        }
        proof {
            assert(done =~= all);
        }
        TraceObject { trace_id, spans: acc, processes, warnings }
    }

    /// Look a span up by id, exactly as [`spec_get_span`] describes.
    pub fn get(&self, id: &str) -> (r: Option<&Span>)
        ensures
            match r {
                Some(s) => spec_get_span(self.spans@, id@) == Some(*s),
                None => spec_get_span(self.spans@, id@) is None,
            },
    {
        let id_string = id.to_owned();
        let n = self.spans.len();
        assert(self.spans@.skip(0) =~= self.spans@);
        let mut i: usize = 0;
        while i < n
            invariant
                0 <= i <= n == self.spans@.len(),
                id_string@ == id@,
                spec_get_span(self.spans@, id@) == spec_get_span(self.spans@.skip(i as int), id@),
            decreases n - i,
        {
            assert(self.spans@.skip(i as int)[0] == self.spans@[i as int]);
            if self.spans[i].span_id == id_string {
                return Some(&self.spans[i]);
            }
            assert(self.spans@.skip(i as int).drop_first() =~= self.spans@.skip(i + 1));
            i = i + 1;
        }
        assert(self.spans@.skip(n as int) =~= Seq::<Span>::empty());
        None
    }

    /// The parent of the span registered under `id`: the span its first
    /// `CHILD_OF` reference names, when that span is in this trace.
    pub fn get_parent(&self, id: &str) -> (r: Option<&Span>)
        ensures
            match r {
                Some(p) => {
                    &&& spec_get_span(self.spans@, id@) is Some
                    &&& spec_parent_span_id(
                        spec_get_span(self.spans@, id@).unwrap().references@,
                    ) is Some
                    &&& spec_get_span(
                        self.spans@,
                        spec_parent_span_id(
                            spec_get_span(self.spans@, id@).unwrap().references@,
                        ).unwrap(),
                    ) == Some(*p)
                },
                None => {
                    ||| spec_get_span(self.spans@, id@) is None
                    ||| spec_parent_span_id(
                        spec_get_span(self.spans@, id@).unwrap().references@,
                    ) is None
                    ||| spec_get_span(
                        self.spans@,
                        spec_parent_span_id(
                            spec_get_span(self.spans@, id@).unwrap().references@,
                        ).unwrap(),
                    ) is None
                },
            },
    {
        match self.get(id) {
            None => None,
            Some(s) => match s.parent_span_id() {
                None => None,
                Some(pid) => self.get(pid.as_str()),
            },
        }
    }
}

// ---------------------------------------------------------------------------
// RPC envelope
// ---------------------------------------------------------------------------

/// The envelope the upstream service wraps its answers in.
#[derive(Debug, Clone, PartialEq)]
pub struct RpcResponse<T> {
    pub data: Vec<T>,
    pub total: u64,
    pub limit: u64,
    pub offset: u64,
    pub errors: Option<String>,
}

impl<T> RpcResponse<T> {
    /// Unwrap the payload.
    pub fn consume(self) -> (r: Vec<T>)
        ensures
            r == self.data,
    {
        self.data
    }
}

} // verus!
