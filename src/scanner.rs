use vstd::prelude::*;

use crate::json_object::ValueType;

verus! {

/// Where the scanner stands in the text of one object or array.
#[derive(Debug, Clone, Copy, PartialEq, Eq, Structural)]
pub enum Phase {
    /// Between members of an object: waiting for the quote that opens a name.
    SeekKey,
    /// Inside a member name whose first character is at `start`; `escaped` right after a
    /// backslash.
    InKey { start: usize, escaped: bool },
    /// After a member name: waiting for the colon.
    SeekColon,
    /// Waiting for the first character of a value.
    SeekValue,
    /// Inside a string value whose first character is at `start`.
    InString { start: usize, escaped: bool },
    /// Inside a nested array (`is_array`) or object whose inner text starts at `start`, with
    /// `depth` delimiters of its kind open.
    InNested { is_array: bool, start: usize, depth: usize },
    /// Inside a literal (number, boolean or null) whose first character is at `start`.
    InLiteral { start: usize },
    /// After a complete string or nested value: waiting for the comma.
    AfterValue,
}

/// The phase together with the range of the name of the member being read.
#[derive(Debug, Clone, Copy, PartialEq, Eq, Structural)]
pub struct ScanState {
    pub phase: Phase,
    pub name_start: usize,
    pub name_end: usize,
}

/// One member found in the text: the range of its name (empty in an array), its kind, and
/// the range of its value. For a string that is the text between the quotes, escape
/// sequences kept as written (an escaped quote does not end the string); for a literal
/// the text with surrounding whitespace removed, for an object or array its inner text
/// without the outer delimiters.
#[derive(Debug, Clone, Copy, PartialEq, Eq, Structural)]
pub struct Member {
    pub name_start: usize,
    pub name_end: usize,
    pub kind: ValueType,
    pub start: usize,
    pub end: usize,
}

/// Whitespace as Unicode's White_Space property has it (what `char::is_whitespace` and
/// `str::trim` go by): tab through carriage return, space, U+0085, U+00A0, U+1680,
/// U+2000 to U+200A, U+2028, U+2029, U+202F, U+205F and U+3000.
pub open spec fn is_ws(c: char) -> bool {
    let u = c as u32;
    ||| 0x9 <= u <= 0xd
    ||| u == 0x20
    ||| u == 0x85
    ||| u == 0xa0
    ||| u == 0x1680
    ||| 0x2000 <= u <= 0x200a
    ||| u == 0x2028
    ||| u == 0x2029
    ||| u == 0x202f
    ||| u == 0x205f
    ||| u == 0x3000
}

/// The end of `s[start..end]` once trailing whitespace is removed.
pub open spec fn trim_end(s: Seq<char>, start: int, end: int) -> int
    decreases end - start,
{
    if end > start && is_ws(s[end - 1]) {
        trim_end(s, start, end - 1)
    } else {
        end
    }
}

/// The first index at or after `i` that is not whitespace (or the length of `s`).
pub open spec fn skip_ws(s: Seq<char>, i: int) -> int
    decreases s.len() - i,
{
    if 0 <= i < s.len() && is_ws(s[i]) {
        skip_ws(s, i + 1)
    } else {
        i
    }
}

/// Skipping whitespace from `i` in text that is whitespace from `i` on reaches the end.
pub proof fn lemma_skip_ws_blank(s: Seq<char>, i: int)
    requires
        0 <= i <= s.len(),
        forall|j: int| i <= j < s.len() ==> is_ws(#[trigger] s[j]),
    ensures
        skip_ws(s, i) == s.len(),
    decreases s.len() - i,
{
    if i < s.len() {
        lemma_skip_ws_blank(s, i + 1);
    }
}

/// The kind of a trimmed literal: exactly `null`, exactly `true` or `false`, or else a number.
pub open spec fn literal_kind(t: Seq<char>) -> ValueType {
    if t == seq!['n', 'u', 'l', 'l'] {
        ValueType::NullType
    } else if t == seq!['t', 'r', 'u', 'e'] || t == seq!['f', 'a', 'l', 's', 'e'] {
        ValueType::BooleanType
    } else {
        ValueType::NumberType
    }
}

/// An object or array kind.
pub open spec fn is_nested(k: ValueType) -> bool {
    k == ValueType::ObjectType || k == ValueType::ArrayType
}

/// The state in which each member starts: awaiting a name in an object, a value in an array.
pub open spec fn fresh(in_array: bool) -> ScanState {
    ScanState {
        phase: if in_array {
            Phase::SeekValue
        } else {
            Phase::SeekKey
        },
        name_start: 0,
        name_end: 0,
    }
}

/// The literal member whose text is `s[start..end]`, under the name range held in `st`.
pub open spec fn literal_member(st: ScanState, s: Seq<char>, start: usize, end: int) -> Member {
    let e = trim_end(s, start as int, end);
    Member {
        name_start: st.name_start,
        name_end: st.name_end,
        kind: literal_kind(s.subrange(start as int, e)),
        start,
        end: e as usize,
    }
}

/// One step of the scanner: the state after reading `s[i]`, and the member it completes.
pub open spec fn step(st: ScanState, s: Seq<char>, i: usize, in_array: bool) -> (
    ScanState,
    Option<Member>,
) {
    let c = s[i as int];
    let next = (i + 1) as usize;
    match st.phase {
        Phase::SeekKey => if c == '"' {
            (ScanState { phase: Phase::InKey { start: next, escaped: false }, ..st }, None)
        } else {
            (st, None)
        },
        Phase::InKey { start, escaped } => if escaped {
            (ScanState { phase: Phase::InKey { start, escaped: false }, ..st }, None)
        } else if c == '\\' {
            (ScanState { phase: Phase::InKey { start, escaped: true }, ..st }, None)
        } else if c == '"' {
            (ScanState { phase: Phase::SeekColon, name_start: start, name_end: i }, None)
        } else {
            (st, None)
        },
        Phase::SeekColon => if c == ':' {
            (ScanState { phase: Phase::SeekValue, ..st }, None)
        } else {
            (st, None)
        },
        Phase::SeekValue => if c == '"' {
            (ScanState { phase: Phase::InString { start: next, escaped: false }, ..st }, None)
        } else if c == '{' {
            (
                ScanState { phase: Phase::InNested { is_array: false, start: next, depth: 1 }, ..st },
                None,
            )
        } else if c == '[' {
            (
                ScanState { phase: Phase::InNested { is_array: true, start: next, depth: 1 }, ..st },
                None,
            )
        } else if c == ',' {
            (fresh(in_array), None)
        } else if is_ws(c) {
            (st, None)
        } else {
            (ScanState { phase: Phase::InLiteral { start: i }, ..st }, None)
        },
        Phase::InString { start, escaped } => if escaped {
            (ScanState { phase: Phase::InString { start, escaped: false }, ..st }, None)
        } else if c == '\\' {
            (ScanState { phase: Phase::InString { start, escaped: true }, ..st }, None)
        } else if c == '"' {
            (
                ScanState { phase: Phase::AfterValue, ..st },
                Some(
                    Member {
                        name_start: st.name_start,
                        name_end: st.name_end,
                        kind: ValueType::StringType,
                        start,
                        end: i,
                    },
                ),
            )
        } else {
            (st, None)
        },
        Phase::InNested { is_array, start, depth } => {
            let open = if is_array {
                '['
            } else {
                '{'
            };
            let close = if is_array {
                ']'
            } else {
                '}'
            };
            if c == open {
                (
                    ScanState {
                        phase: Phase::InNested { is_array, start, depth: (depth + 1) as usize },
                        ..st
                    },
                    None,
                )
            } else if c == close && depth == 1 {
                (
                    ScanState { phase: Phase::AfterValue, ..st },
                    Some(
                        Member {
                            name_start: st.name_start,
                            name_end: st.name_end,
                            kind: if is_array {
                                ValueType::ArrayType
                            } else {
                                ValueType::ObjectType
                            },
                            start,
                            end: i,
                        },
                    ),
                )
            } else if c == close {
                (
                    ScanState {
                        phase: Phase::InNested { is_array, start, depth: (depth - 1) as usize },
                        ..st
                    },
                    None,
                )
            } else {
                (st, None)
            }
        },
        Phase::InLiteral { start } => if c == ',' {
            (fresh(in_array), Some(literal_member(st, s, start, i as int)))
        } else {
            (st, None)
        },
        Phase::AfterValue => if c == ',' {
            (fresh(in_array), None)
        } else {
            (st, None)
        },
    }
}

/// The state after reading the first `k` characters of `s`, and the members completed so far.
pub open spec fn run(s: Seq<char>, in_array: bool, k: nat) -> (ScanState, Seq<Member>)
    decreases k,
{
    if k == 0 {
        (fresh(in_array), Seq::empty())
    } else {
        let (st, ms) = run(s, in_array, (k - 1) as nat);
        let (st2, m) = step(st, s, (k - 1) as usize, in_array);
        match m {
            Some(m) => (st2, ms.push(m)),
            None => (st2, ms),
        }
    }
}

/// The member still pending when the text ends: only a literal needs no closing character.
pub open spec fn finish(st: ScanState, s: Seq<char>) -> Option<Member> {
    match st.phase {
        Phase::InLiteral { start } => Some(literal_member(st, s, start, s.len() as int)),
        _ => None,
    }
}

/// The members of the text `s` of one object (or array, with `in_array`), in order.
pub open spec fn members(s: Seq<char>, in_array: bool) -> Seq<Member> {
    let (st, ms) = run(s, in_array, s.len());
    match finish(st, s) {
        Some(m) => ms.push(m),
        None => ms,
    }
}

/// The ranges of `m` lie within the first `k` characters; an object or array value
/// starts after its opening delimiter.
pub open spec fn member_ok(m: Member, k: int) -> bool {
    &&& m.name_start <= m.name_end <= k
    &&& m.start <= m.end <= k
    &&& is_nested(m.kind) ==> m.start >= 1
}

/// The indices held in `st` lie within the first `k` characters, and a depth counter is
/// no larger than the characters read since its region opened.
pub open spec fn state_ok(st: ScanState, k: int) -> bool {
    &&& st.name_start <= st.name_end <= k
    &&& match st.phase {
        Phase::InKey { start, .. } => start <= k,
        Phase::InString { start, .. } => start <= k,
        Phase::InNested { start, depth, .. } => 1 <= start <= k && 1 <= depth <= k - start + 1,
        Phase::InLiteral { start } => start < k,
        _ => true,
    }
}

/// One for a literal still being read, which the end of the text or a comma completes.
pub open spec fn pending(st: ScanState) -> nat {
    if st.phase is InLiteral {
        1
    } else {
        0
    }
}

proof fn lemma_trim_end_bounds(s: Seq<char>, start: int, end: int)
    requires
        start <= end,
    ensures
        start <= trim_end(s, start, end) <= end,
    decreases end - start,
{
    if end > start && is_ws(s[end - 1]) {
        lemma_trim_end_bounds(s, start, end - 1);
    }
}

/// The scanner's indices stay in range, and it completes at most one member per
/// character read.
pub proof fn lemma_run_ok(s: Seq<char>, in_array: bool, k: nat)
    requires
        k <= s.len(),
        s.len() <= usize::MAX,
    ensures
        state_ok(run(s, in_array, k).0, k as int),
        forall|j: int|
            0 <= j < run(s, in_array, k).1.len() ==> member_ok(
                #[trigger] run(s, in_array, k).1[j],
                k as int,
            ),
        run(s, in_array, k).1.len() + pending(run(s, in_array, k).0) <= k,
    decreases k,
{
    if k > 0 {
        let kk = (k - 1) as nat;
        lemma_run_ok(s, in_array, kk);
        let (st, ms) = run(s, in_array, kk);
        let i = kk as usize;
        let (st2, m) = step(st, s, i, in_array);
        if let Phase::InLiteral { start } = st.phase {
            lemma_trim_end_bounds(s, start as int, kk as int);
        }
        match m {
            Some(mm) => {
                assert(member_ok(mm, k as int));
                assert forall|j: int| 0 <= j < ms.push(mm).len() implies member_ok(
                    #[trigger] ms.push(mm)[j],
                    k as int,
                ) by {
                    if j < ms.len() {
                        assert(member_ok(ms[j], kk as int));
                    }
                }
            },
            None => {
                assert forall|j: int| 0 <= j < ms.len() implies member_ok(
                    #[trigger] ms[j],
                    k as int,
                ) by {
                    assert(member_ok(ms[j], kk as int));
                }
            },
        }
    }
}

/// Every member of `s` lies within `s`, an object or array value is shorter than `s`, and
/// there are no more members than characters.
pub proof fn lemma_members_ok(s: Seq<char>, in_array: bool)
    requires
        s.len() <= usize::MAX,
    ensures
        forall|j: int|
            0 <= j < members(s, in_array).len() ==> member_ok(
                #[trigger] members(s, in_array)[j],
                s.len() as int,
            ),
        members(s, in_array).len() <= s.len(),
{
    lemma_run_ok(s, in_array, s.len());
    let (st, ms) = run(s, in_array, s.len());
    if let Phase::InLiteral { start } = st.phase {
        lemma_trim_end_bounds(s, start as int, s.len() as int);
        let m = literal_member(st, s, start, s.len() as int);
        assert(member_ok(m, s.len() as int));
        assert forall|j: int| 0 <= j < ms.push(m).len() implies member_ok(
            #[trigger] ms.push(m)[j],
            s.len() as int,
        ) by {
            if j < ms.len() {
                assert(member_ok(ms[j], s.len() as int));
            }
        }
    }
}

/// Whether the character at `i` of a string whose text starts at `start` is escaped: it
/// follows a backslash that is not itself escaped.
pub open spec fn escaped_at(s: Seq<char>, start: int, i: int) -> bool
    decreases i - start,
{
    if i <= start {
        false
    } else {
        s[i - 1] == '\\' && !escaped_at(s, start, i - 1)
    }
}

/// The opening delimiter of an array (`is_array`) or object.
pub open spec fn open_of(is_array: bool) -> char {
    if is_array {
        '['
    } else {
        '{'
    }
}

/// The closing delimiter of an array (`is_array`) or object.
pub open spec fn close_of(is_array: bool) -> char {
    if is_array {
        ']'
    } else {
        '}'
    }
}

/// Opening delimiters minus closing delimiters of one kind in `s[start..i]`.
pub open spec fn balance(s: Seq<char>, start: int, i: int, is_array: bool) -> int
    decreases i - start,
{
    if i <= start {
        0
    } else {
        balance(s, start, i - 1, is_array) + if s[i - 1] == open_of(is_array) {
            1int
        } else if s[i - 1] == close_of(is_array) {
            -1int
        } else {
            0int
        }
    }
}

/// What the text of a member of `s` is made of, stated directly:
/// a string's text holds no unescaped quote, and an unescaped quote follows it;
/// an object's or array's inner text never closes more delimiters of its kind than it
/// opened, closes all it opened, and is followed by the closing delimiter;
/// a literal's text holds no comma.
pub open spec fn member_text_ok(m: Member, s: Seq<char>) -> bool {
    let start = m.start as int;
    let end = m.end as int;
    if m.kind == ValueType::StringType {
        &&& forall|i: int| start <= i < end && #[trigger] s[i] == '"' ==> escaped_at(s, start, i)
        &&& end < s.len()
        &&& s[end] == '"'
        &&& !escaped_at(s, start, end)
    } else if is_nested(m.kind) {
        let a = m.kind == ValueType::ArrayType;
        &&& forall|i: int| start <= i <= end ==> #[trigger] balance(s, start, i, a) >= 0
        &&& balance(s, start, end, a) == 0
        &&& end < s.len()
        &&& s[end] == close_of(a)
    } else {
        forall|i: int| start <= i < end ==> #[trigger] s[i] != ','
    }
}

/// What the text read so far of the member being read is made of.
pub open spec fn phase_text_ok(st: ScanState, s: Seq<char>, k: int) -> bool {
    match st.phase {
        Phase::InString { start, escaped } => {
            &&& forall|i: int|
                start <= i < k && #[trigger] s[i] == '"' ==> escaped_at(s, start as int, i)
            &&& escaped == escaped_at(s, start as int, k)
        },
        Phase::InNested { is_array, start, depth } => {
            &&& depth == 1 + balance(s, start as int, k, is_array)
            &&& forall|i: int|
                start <= i <= k ==> #[trigger] balance(s, start as int, i, is_array) >= 0
        },
        Phase::InLiteral { start } => forall|i: int| start <= i < k ==> #[trigger] s[i] != ',',
        _ => true,
    }
}

proof fn lemma_run_text(s: Seq<char>, in_array: bool, k: nat)
    requires
        k <= s.len(),
        s.len() <= usize::MAX,
    ensures
        phase_text_ok(run(s, in_array, k).0, s, k as int),
        forall|j: int|
            0 <= j < run(s, in_array, k).1.len() ==> member_text_ok(
                #[trigger] run(s, in_array, k).1[j],
                s,
            ),
    decreases k,
{
    if k > 0 {
        let kk = (k - 1) as nat;
        lemma_run_text(s, in_array, kk);
        lemma_run_ok(s, in_array, kk);
        let (st, ms) = run(s, in_array, kk);
        let i = kk as int;
        let (st2, m) = step(st, s, kk as usize, in_array);
        match st.phase {
            Phase::InString { start, escaped } => {
                assert(escaped_at(s, start as int, k as int) == (s[i] == '\\' && !escaped_at(
                    s,
                    start as int,
                    i,
                )));
            },
            Phase::InNested { is_array, start, depth } => {
                assert(balance(s, start as int, k as int, is_array) == balance(
                    s,
                    start as int,
                    i,
                    is_array,
                ) + if s[i] == open_of(is_array) {
                    1int
                } else if s[i] == close_of(is_array) {
                    -1int
                } else {
                    0int
                });
            },
            Phase::InLiteral { start } => {
                lemma_trim_end_bounds(s, start as int, i);
            },
            Phase::SeekValue => {
                assert(escaped_at(s, k as int, k as int) == false);
                assert(balance(s, k as int, k as int, true) == 0);
                assert(balance(s, k as int, k as int, false) == 0);
            },
            _ => {},
        }
        match m {
            Some(mm) => {
                assert(member_text_ok(mm, s));
                assert forall|j: int| 0 <= j < ms.push(mm).len() implies member_text_ok(
                    #[trigger] ms.push(mm)[j],
                    s,
                ) by {
                    if j < ms.len() {
                        assert(member_text_ok(ms[j], s));
                    }
                }
            },
            None => {},
        }
    }
}

/// Every member found in `s` is made of what its kind calls for: a string's text holds no
/// unescaped quote and ends at one, an object's or array's inner text has its kind of
/// delimiter balanced and ends at the closing one, and a literal's text holds no comma.
pub proof fn lemma_members_text(s: Seq<char>, in_array: bool)
    requires
        s.len() <= usize::MAX,
    ensures
        forall|j: int|
            0 <= j < members(s, in_array).len() ==> member_text_ok(
                #[trigger] members(s, in_array)[j],
                s,
            ),
{
    lemma_run_text(s, in_array, s.len());
    lemma_run_ok(s, in_array, s.len());
    let (st, ms) = run(s, in_array, s.len());
    if let Phase::InLiteral { start } = st.phase {
        lemma_trim_end_bounds(s, start as int, s.len() as int);
        let m = literal_member(st, s, start, s.len() as int);
        assert(member_text_ok(m, s));
        assert forall|j: int| 0 <= j < ms.push(m).len() implies member_text_ok(
            #[trigger] ms.push(m)[j],
            s,
        ) by {
            if j < ms.len() {
                assert(member_text_ok(ms[j], s));
            }
        }
    }
}

/// The characters of `s`.
pub(crate) fn chars_of(s: &str) -> (v: Vec<char>)
    ensures
        v@ == s@,
{
    broadcast use vstd::string::axiom_spec_iter;

    let mut v: Vec<char> = Vec::new();
    for c in it: s.chars()
        invariant
            v@ == it.seq().take(it.index()),
    {
        proof {
            assert(it.seq().take(it.index() + 1) =~= it.seq().take(it.index()).push(c));
        }
        v.push(c);
    }
    proof {
        assert(v@ =~= s@);
    }
    v
}

fn is_ws_exec(c: char) -> (r: bool)
    ensures
        r == is_ws(c),
{
    let u = c as u32;
    (0x9 <= u && u <= 0xd) || u == 0x20 || u == 0x85 || u == 0xa0 || u == 0x1680 || (0x2000 <= u
        && u <= 0x200a) || u == 0x2028 || u == 0x2029 || u == 0x202f || u == 0x205f || u == 0x3000
}

/// The end of `s[start..end]` once trailing whitespace is removed.
pub(crate) fn trim_end_exec(s: &Vec<char>, start: usize, end: usize) -> (r: usize)
    requires
        start <= end <= s.len(),
    ensures
        r == trim_end(s@, start as int, end as int),
        start <= r <= end,
{
    let mut e = end;
    while e > start && is_ws_exec(s[e - 1])
        invariant
            start <= e <= end <= s.len(),
            trim_end(s@, start as int, e as int) == trim_end(s@, start as int, end as int),
        decreases e,
    {
        e = e - 1;
    }
    e
}

/// The first index at or after `i` that is not whitespace.
pub(crate) fn skip_ws_exec(s: &Vec<char>, i: usize) -> (r: usize)
    requires
        i <= s.len(),
    ensures
        r == skip_ws(s@, i as int),
        i <= r <= s.len(),
{
    let mut j = i;
    while j < s.len() && is_ws_exec(s[j])
        invariant
            i <= j <= s.len(),
            skip_ws(s@, j as int) == skip_ws(s@, i as int),
        decreases s.len() - j,
    {
        j = j + 1;
    }
    j
}

/// The kind of the literal `s[start..end]`.
fn literal_kind_exec(s: &Vec<char>, start: usize, end: usize) -> (k: ValueType)
    requires
        start <= end <= s.len(),
    ensures
        k == literal_kind(s@.subrange(start as int, end as int)),
{
    let ghost t = s@.subrange(start as int, end as int);
    let ghost null_word = seq!['n', 'u', 'l', 'l'];
    let ghost true_word = seq!['t', 'r', 'u', 'e'];
    let ghost false_word = seq!['f', 'a', 'l', 's', 'e'];
    assert(null_word[0] == 'n' && null_word[1] == 'u' && null_word[2] == 'l' && null_word[3]
        == 'l' && null_word.len() == 4);
    assert(true_word[0] == 't' && true_word[1] == 'r' && true_word[2] == 'u' && true_word[3]
        == 'e' && true_word.len() == 4);
    assert(false_word[0] == 'f' && false_word[1] == 'a' && false_word[2] == 'l' && false_word[3]
        == 's' && false_word[4] == 'e' && false_word.len() == 5);
    let len = end - start;
    let is_null = len == 4 && s[start] == 'n' && s[start + 1] == 'u' && s[start + 2] == 'l'
        && s[start + 3] == 'l';
    let is_true = len == 4 && s[start] == 't' && s[start + 1] == 'r' && s[start + 2] == 'u'
        && s[start + 3] == 'e';
    let is_false = len == 5 && s[start] == 'f' && s[start + 1] == 'a' && s[start + 2] == 'l'
        && s[start + 3] == 's' && s[start + 4] == 'e';
    proof {
        if t == null_word {
            assert(t[0] == s@[start as int] && t[1] == s@[start + 1] && t[2] == s@[start + 2]
                && t[3] == s@[start + 3]);
        }
        if t == true_word {
            assert(t[0] == s@[start as int] && t[1] == s@[start + 1] && t[2] == s@[start + 2]
                && t[3] == s@[start + 3]);
        }
        if t == false_word {
            assert(t[0] == s@[start as int] && t[1] == s@[start + 1] && t[2] == s@[start + 2]
                && t[3] == s@[start + 3] && t[4] == s@[start + 4]);
        }
        if is_null {
            assert(t =~= null_word);
        }
        if is_true {
            assert(t =~= true_word);
        }
        if is_false {
            assert(t =~= false_word);
        }
    }
    if is_null {
        ValueType::NullType
    } else if is_true || is_false {
        ValueType::BooleanType
    } else {
        ValueType::NumberType
    }
}

fn literal_member_exec(st: ScanState, s: &Vec<char>, start: usize, end: usize) -> (m: Member)
    requires
        start <= end <= s.len(),
    ensures
        m == literal_member(st, s@, start, end as int),
{
    let e = trim_end_exec(s, start, end);
    let kind = literal_kind_exec(s, start, e);
    Member { name_start: st.name_start, name_end: st.name_end, kind, start, end: e }
}

fn fresh_exec(in_array: bool) -> (r: ScanState)
    ensures
        r == fresh(in_array),
{
    ScanState {
        phase: if in_array {
            Phase::SeekValue
        } else {
            Phase::SeekKey
        },
        name_start: 0,
        name_end: 0,
    }
}

/// Reads `s[i]` in state `st`.
fn step_exec(st: ScanState, s: &Vec<char>, i: usize, in_array: bool) -> (r: (
    ScanState,
    Option<Member>,
))
    requires
        i < s.len(),
        state_ok(st, i as int),
    ensures
        r == step(st, s@, i, in_array),
{
    let c = s[i];
    let next = i + 1;
    match st.phase {
        Phase::SeekKey => if c == '"' {
            (ScanState { phase: Phase::InKey { start: next, escaped: false }, ..st }, None)
        } else {
            (st, None)
        },
        Phase::InKey { start, escaped } => if escaped {
            (ScanState { phase: Phase::InKey { start, escaped: false }, ..st }, None)
        } else if c == '\\' {
            (ScanState { phase: Phase::InKey { start, escaped: true }, ..st }, None)
        } else if c == '"' {
            (ScanState { phase: Phase::SeekColon, name_start: start, name_end: i }, None)
        } else {
            (st, None)
        },
        Phase::SeekColon => if c == ':' {
            (ScanState { phase: Phase::SeekValue, ..st }, None)
        } else {
            (st, None)
        },
        Phase::SeekValue => if c == '"' {
            (ScanState { phase: Phase::InString { start: next, escaped: false }, ..st }, None)
        } else if c == '{' {
            (
                ScanState { phase: Phase::InNested { is_array: false, start: next, depth: 1 }, ..st },
                None,
            )
        } else if c == '[' {
            (
                ScanState { phase: Phase::InNested { is_array: true, start: next, depth: 1 }, ..st },
                None,
            )
        } else if c == ',' {
            (fresh_exec(in_array), None)
        } else if is_ws_exec(c) {
            (st, None)
        } else {
            (ScanState { phase: Phase::InLiteral { start: i }, ..st }, None)
        },
        Phase::InString { start, escaped } => if escaped {
            (ScanState { phase: Phase::InString { start, escaped: false }, ..st }, None)
        } else if c == '\\' {
            (ScanState { phase: Phase::InString { start, escaped: true }, ..st }, None)
        } else if c == '"' {
            (
                ScanState { phase: Phase::AfterValue, ..st },
                Some(
                    Member {
                        name_start: st.name_start,
                        name_end: st.name_end,
                        kind: ValueType::StringType,
                        start,
                        end: i,
                    },
                ),
            )
        } else {
            (st, None)
        },
        Phase::InNested { is_array, start, depth } => {
            let open = if is_array {
                '['
            } else {
                '{'
            };
            let close = if is_array {
                ']'
            } else {
                '}'
            };
            if c == open {
                (
                    ScanState {
                        phase: Phase::InNested { is_array, start, depth: depth + 1 },
                        ..st
                    },
                    None,
                )
            } else if c == close && depth == 1 {
                (
                    ScanState { phase: Phase::AfterValue, ..st },
                    Some(
                        Member {
                            name_start: st.name_start,
                            name_end: st.name_end,
                            kind: if is_array {
                                ValueType::ArrayType
                            } else {
                                ValueType::ObjectType
                            },
                            start,
                            end: i,
                        },
                    ),
                )
            } else if c == close {
                (
                    ScanState {
                        phase: Phase::InNested { is_array, start, depth: depth - 1 },
                        ..st
                    },
                    None,
                )
            } else {
                (st, None)
            }
        },
        Phase::InLiteral { start } => if c == ',' {
            (fresh_exec(in_array), Some(literal_member_exec(st, s, start, i)))
        } else {
            (st, None)
        },
        Phase::AfterValue => if c == ',' {
            (fresh_exec(in_array), None)
        } else {
            (st, None)
        },
    }
}

/// Splits the text of one object (or, with `in_array`, one array), given without its outer
/// delimiters, into its members.
pub fn scan_members(s: &Vec<char>, in_array: bool) -> (r: Vec<Member>)
    ensures
        r@ == members(s@, in_array),
{
    let mut st = fresh_exec(in_array);
    let mut out: Vec<Member> = Vec::new();
    let mut i: usize = 0;
    while i < s.len()
        invariant
            i <= s.len(),
            (st, out@) == run(s@, in_array, i as nat),
        decreases s.len() - i,
    {
        proof {
            lemma_run_ok(s@, in_array, i as nat);
        }
        let (st2, m) = step_exec(st, s, i, in_array);
        match m {
            Some(mm) => {
                out.push(mm);
            },
            None => {},
        }
        st = st2;
        i = i + 1;
    }
    proof {
        lemma_run_ok(s@, in_array, i as nat);
    }
    match st.phase {
        Phase::InLiteral { start } => {
            let m = literal_member_exec(st, s, start, s.len());
            out.push(m);
        },
        _ => {},
    }
    out
}

} // verus!
