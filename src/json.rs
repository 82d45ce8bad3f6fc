use vstd::prelude::*;

use crate::json_object::{
    JsonObject, Key, NodeView, ValueType, chain_len, lemma_preorder_unfold, preorder, shift,
    siblings,
};
use crate::scanner::{
    Member, chars_of, is_nested, is_ws, lemma_members_ok, lemma_skip_ws_blank, member_ok, members, scan_members, skip_ws,
    skip_ws_exec, trim_end, trim_end_exec,
};

verus! {

/// Why a document could not be parsed.
#[derive(Debug, PartialEq, Eq)]
pub enum ParseError {
    /// The text could not be read; the message says why.
    IoFailure(String),
    /// The document is not enclosed in a matching pair of `{ }` or `[ ]`.
    StructuralError,
}

/// The name of member `m` of text `s`.
pub open spec fn member_name(m: Member, s: Seq<char>) -> Seq<char> {
    s.subrange(m.name_start as int, m.name_end as int)
}

/// The value text of member `m` of text `s`.
pub open spec fn member_text(m: Member, s: Seq<char>) -> Seq<char> {
    s.subrange(m.start as int, m.end as int)
}

/// The nodes that the members `ms` of text `s` stand for, in depth-first pre-order: each
/// member, then (for an object or array) the nodes of its inner text one level deeper.
/// `bound` is the length of `s`, which each inner text is shorter than.
pub open spec fn forest_of(ms: Seq<Member>, s: Seq<char>, bound: nat) -> Seq<NodeView>
    decreases bound, ms.len(),
{
    if ms.len() == 0 {
        Seq::empty()
    } else {
        let m = ms.last();
        let rest = forest_of(ms.drop_last(), s, bound);
        if is_nested(m.kind) {
            let inner = member_text(m, s);
            let sub = members(inner, m.kind == ValueType::ArrayType);
            rest + seq![
                NodeView {
                    depth: 0,
                    name: member_name(m, s),
                    kind: m.kind,
                    value: Seq::empty(),
                    n: sub.len(),
                },
            ] + (if inner.len() < bound {
                shift(forest_of(sub, inner, inner.len()), 1)
            } else {
                Seq::empty()
            })
        } else {
            rest + seq![
                NodeView {
                    depth: 0,
                    name: member_name(m, s),
                    kind: m.kind,
                    value: member_text(m, s),
                    n: 0,
                },
            ]
        }
    }
}

/// The nodes parsed from the text `s` of one object (or array, with `in_array`), given
/// without its outer delimiters, in depth-first pre-order with its members at depth 0.
pub open spec fn forest(s: Seq<char>, in_array: bool) -> Seq<NodeView> {
    forest_of(members(s, in_array), s, s.len())
}

/// Whether `s[a..b]` is enclosed in `{ }` or in `[ ]`.
pub open spec fn delimited(s: Seq<char>, a: int, b: int) -> bool {
    &&& b - a >= 2
    &&& (s[a] == '{' && s[b - 1] == '}') || (s[a] == '[' && s[b - 1] == ']')
}

/// Parses `line`, the text of one object (or array, when `key` is an array) without its
/// outer delimiters, and appends the nodes found to `key`'s children in order; the children
/// `key` already has stay as they were, first. An object or array member is parsed the
/// same way, into a node of its own, before it is appended.
pub fn helper_for_object_and_array_types(line: &str, key: &mut Key)
    requires
        old(key).spec_n() == 0 || old(key).spec_n() + line@.len() <= usize::MAX,
    ensures
        final(key).same_fields(old(key)),
        preorder(final(key).spec_ptr()) == preorder(old(key).spec_ptr()) + forest(
            line@,
            old(key).spec_kind() == ValueType::ArrayType,
        ),
        siblings(final(key).spec_ptr()).len() >= siblings(old(key).spec_ptr()).len(),
        siblings(final(key).spec_ptr()).take(siblings(old(key).spec_ptr()).len() as int)
            == siblings(old(key).spec_ptr()),
        old(key).spec_n() == chain_len(old(key).spec_ptr()) ==> final(key).spec_n() == old(
            key,
        ).spec_n() + members(line@, old(key).spec_kind() == ValueType::ArrayType).len()
            && final(key).spec_n() == chain_len(final(key).spec_ptr()),
        old(key).wf() ==> final(key).wf(),
    decreases line@.len(),
{
    let chars = chars_of(line);
    assert(line@.len() == chars.len());
    let in_array = *key.get_value_type() == ValueType::ArrayType;
    let ms = scan_members(&chars, in_array);
    let ghost s = line@;
    let ghost k0 = *key;
    proof {
        lemma_members_ok(s, in_array);
        assert(ms@.take(0) =~= Seq::<Member>::empty());
    }
    let mut j: usize = 0;
    while j < ms.len()
        invariant
            j <= ms.len(),
            ms@ == members(s, in_array),
            s == line@,
            in_array == (k0.spec_kind() == ValueType::ArrayType),
            ms.len() <= s.len(),
            forall|i: int| 0 <= i < ms.len() ==> member_ok(#[trigger] ms@[i], s.len() as int),
            k0.spec_n() + s.len() <= usize::MAX,
            key.same_fields(&k0),
            preorder(key.spec_ptr()) == preorder(k0.spec_ptr()) + forest_of(
                ms@.take(j as int),
                s,
                s.len(),
            ),
            key.spec_n() <= k0.spec_n() + j,
            k0.wf() ==> key.wf(),
            k0.spec_n() == chain_len(k0.spec_ptr()) ==> key.spec_n() == k0.spec_n() + j
                && key.spec_n() == chain_len(key.spec_ptr()),
            siblings(key.spec_ptr()).len() >= siblings(k0.spec_ptr()).len(),
            siblings(key.spec_ptr()).take(siblings(k0.spec_ptr()).len() as int) == siblings(
                k0.spec_ptr(),
            ),
        decreases ms.len() - j,
    {
        let m = ms[j];
        assert(member_ok(m, s.len() as int));
        let name = String::from_str(line.substring_char(m.name_start, m.name_end));
        let child: Key;
        if m.kind == ValueType::ObjectType || m.kind == ValueType::ArrayType {
            let inner = line.substring_char(m.start, m.end);
            let mut c = Key::new(name, m.kind, String::new());
            helper_for_object_and_array_types(inner, &mut c);
            child = c;
        } else {
            let value = String::from_str(line.substring_char(m.start, m.end));
            child = Key::new(name, m.kind, value);
        }
        let boxed = Box::new(child);
        let ghost prev = siblings(key.spec_ptr());
        key.add_key(boxed);
        proof {
            let len0 = siblings(k0.spec_ptr()).len() as int;
            assert(siblings(key.spec_ptr()).take(len0) =~= prev.take(len0));
            lemma_preorder_unfold(Some(boxed));
            lemma_preorder_unfold(None);
            let next = ms@.take(j + 1);
            assert(next.drop_last() =~= ms@.take(j as int));
            assert(forest_of(next, s, s.len()) =~= forest_of(ms@.take(j as int), s, s.len())
                + preorder(Some(boxed)));
        }
        j = j + 1;
    }
    proof {
        assert(ms@.take(ms.len() as int) =~= ms@);
    }
}

/// `r` is a document holding the nodes parsed from `inner`, the text of an object (or of
/// an array, with `in_array`) between its delimiters.
pub open spec fn holds_document(
    r: Result<Option<Box<JsonObject>>, ParseError>,
    inner: Seq<char>,
    in_array: bool,
) -> bool {
    match r {
        Ok(Some(o)) => {
            &&& o.wf()
            &&& o.spec_n() == members(inner, in_array).len()
            &&& o.nodes() == forest(inner, in_array)
            &&& o.spec_kind() == if in_array {
                ValueType::ArrayType
            } else {
                ValueType::ObjectType
            }
        },
        _ => false,
    }
}

/// Parses a whole document. Surrounding whitespace (Unicode White_Space, as `str::trim`
/// counts it) is ignored. Blank text, and a document
/// with no members, give `Ok(None)`; text that is not enclosed in a matching pair of
/// `{ }` or `[ ]` gives `StructuralError`; otherwise the document holds the nodes parsed
/// from the text between the delimiters.
pub fn parser(text: &str) -> (r: Result<Option<Box<JsonObject>>, ParseError>)
    ensures
        ({
            let s = text@;
            let a = skip_ws(s, 0);
            let b = trim_end(s, a, s.len() as int);
            let inner = s.subrange(a + 1, b - 1);
            let in_array = s[a] == '[';
            &&& a == b ==> r == Ok::<Option<Box<JsonObject>>, ParseError>(None)
            &&& (forall|i: int| 0 <= i < s.len() ==> is_ws(#[trigger] s[i])) ==> r == Ok::<
                Option<Box<JsonObject>>,
                ParseError,
            >(None)
            &&& a < b && !delimited(s, a, b) ==> r == Err::<Option<Box<JsonObject>>, ParseError>(
                ParseError::StructuralError,
            )
            &&& a < b && delimited(s, a, b) && members(inner, in_array).len() == 0 ==> r == Ok::<
                Option<Box<JsonObject>>,
                ParseError,
            >(None)
            &&& a < b && delimited(s, a, b) && members(inner, in_array).len() > 0 ==> holds_document(
                r,
                inner,
                in_array,
            )
        }),
{
    let chars = chars_of(text);
    proof {
        if forall|i: int| 0 <= i < text@.len() ==> is_ws(#[trigger] text@[i]) {
            lemma_skip_ws_blank(text@, 0);
        }
    }
    let a = skip_ws_exec(&chars, 0);
    let b = trim_end_exec(&chars, a, chars.len());
    if a == b {
        return Ok(None);
    }
    let in_array: bool;
    if b - a >= 2 && chars[a] == '{' && chars[b - 1] == '}' {
        in_array = false;
    } else if b - a >= 2 && chars[a] == '[' && chars[b - 1] == ']' {
        in_array = true;
    } else {
        return Err(ParseError::StructuralError);
    }
    let inner = text.substring_char(a + 1, b - 1);
    let kind = if in_array {
        ValueType::ArrayType
    } else {
        ValueType::ObjectType
    };
    let mut root = Key::new(String::new(), kind, String::new());
    helper_for_object_and_array_types(inner, &mut root);
    proof {
        lemma_preorder_unfold(None);
    }
    if root.get_n() == 0 {
        Ok(None)
    } else {
        Ok(Some(Box::new(JsonObject::from_root(root))))
    }
}

} // verus!
