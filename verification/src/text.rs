//! Names and paths as text: the order of names, the last component of a path
//! and the place that a link's target names.

use vstd::prelude::*;
use vstd::string::*;
use vstd::utf8::*;

verus! {

/// The character that separates the components of a path.
pub const SEPARATOR: char = '/';

/// Lexicographic order on byte strings: a proper prefix comes first, and
/// otherwise the first differing byte decides.
pub open spec fn bytes_le(a: Seq<u8>, b: Seq<u8>) -> bool
    decreases a.len(),
{
    if a.len() == 0 {
        true
    } else if b.len() == 0 {
        false
    } else if a[0] != b[0] {
        a[0] < b[0]
    } else {
        bytes_le(a.drop_first(), b.drop_first())
    }
}

/// The order of names: by their UTF-8 bytes, which is also the order of their
/// code points. It depends on no locale and does not fold case.
pub open spec fn name_le(a: Seq<char>, b: Seq<char>) -> bool {
    bytes_le(encode_utf8(a), encode_utf8(b))
}

pub proof fn lemma_bytes_le_reflexive(a: Seq<u8>)
    ensures
        bytes_le(a, a),
    decreases a.len(),
{
    if a.len() > 0 {
        lemma_bytes_le_reflexive(a.drop_first());
    }
}

pub proof fn lemma_bytes_le_total(a: Seq<u8>, b: Seq<u8>)
    ensures
        bytes_le(a, b) || bytes_le(b, a),
    decreases a.len(),
{
    if a.len() > 0 && b.len() > 0 && a[0] == b[0] {
        lemma_bytes_le_total(a.drop_first(), b.drop_first());
    }
}

pub proof fn lemma_bytes_le_antisymmetric(a: Seq<u8>, b: Seq<u8>)
    requires
        bytes_le(a, b),
        bytes_le(b, a),
    ensures
        a == b,
    decreases a.len(),
{
    if a.len() > 0 && b.len() > 0 {
        lemma_bytes_le_antisymmetric(a.drop_first(), b.drop_first());
        assert(a =~= seq![a[0]] + a.drop_first());
    }
}

pub proof fn lemma_bytes_le_transitive(a: Seq<u8>, b: Seq<u8>, c: Seq<u8>)
    requires
        bytes_le(a, b),
        bytes_le(b, c),
    ensures
        bytes_le(a, c),
    decreases a.len(),
{
    if a.len() > 0 && b.len() > 0 && c.len() > 0 && a[0] == b[0] && b[0] == c[0] {
        lemma_bytes_le_transitive(a.drop_first(), b.drop_first(), c.drop_first());
    }
}

/// The order of names is a total order: any two names are ordered, the order
/// is transitive, and two names that precede each other are the same name.
pub proof fn lemma_name_order_total(a: Seq<char>, b: Seq<char>, c: Seq<char>)
    ensures
        name_le(a, a),
        name_le(a, b) || name_le(b, a),
        name_le(a, b) && name_le(b, c) ==> name_le(a, c),
        name_le(a, b) && name_le(b, a) ==> a == b,
{
    lemma_bytes_le_reflexive(encode_utf8(a));
    lemma_bytes_le_total(encode_utf8(a), encode_utf8(b));
    if name_le(a, b) && name_le(b, c) {
        lemma_bytes_le_transitive(encode_utf8(a), encode_utf8(b), encode_utf8(c));
    }
    if name_le(a, b) && name_le(b, a) {
        lemma_bytes_le_antisymmetric(encode_utf8(a), encode_utf8(b));
        encode_utf8_decode_utf8(a);
        encode_utf8_decode_utf8(b);
    }
}

/// Whether name `a` comes before name `b` or is the same name.
pub fn precedes(a: &str, b: &str) -> (r: bool)
    ensures
        r == name_le(a@, b@),
{
    let x = a.as_bytes();
    let y = b.as_bytes();
    let mut i: usize = 0;
    assert(x@.skip(0) =~= x@ && y@.skip(0) =~= y@);
    loop
        invariant
            i <= x@.len(),
            i <= y@.len(),
            x@ == encode_utf8(a@),
            y@ == encode_utf8(b@),
            bytes_le(x@, y@) == bytes_le(x@.skip(i as int), y@.skip(i as int)),
        decreases x@.len() - i,
    {
        if i >= x.len() {
            return true;
        }
        if i >= y.len() {
            return false;
        }
        let p: u8 = x[i];
        let q: u8 = y[i];
        if p != q {
            return p < q;
        }
        assert(x@.skip(i as int).drop_first() =~= x@.skip(i + 1));
        assert(y@.skip(i as int).drop_first() =~= y@.skip(i + 1));
        i += 1;
    }
}

/// A path without the separators at its end.
pub open spec fn trim_end(path: Seq<char>) -> Seq<char>
    decreases path.len(),
{
    if path.len() > 0 && path.last() == SEPARATOR {
        trim_end(path.drop_last())
    } else {
        path
    }
}

/// The longest suffix of a path that holds no separator.
pub open spec fn last_component(path: Seq<char>) -> Seq<char>
    decreases path.len(),
{
    if path.len() == 0 || path.last() == SEPARATOR {
        Seq::empty()
    } else {
        last_component(path.drop_last()).push(path.last())
    }
}

/// The base name of a path: its last component, separators at the end of the
/// path set aside. It is empty for a path made of separators only.
pub open spec fn base_name(path: Seq<char>) -> Seq<char> {
    last_component(trim_end(path))
}

/// What comes before the base name: the directory part of a path, with its
/// closing separator.
pub open spec fn parent_prefix(path: Seq<char>) -> Seq<char> {
    trim_end(path).subrange(0, trim_end(path).len() - base_name(path).len())
}

/// The place that a link at `link` names by `target`: the target itself when
/// it starts at the root, and otherwise the target taken from the directory
/// that holds the link.
pub open spec fn link_destination(link: Seq<char>, target: Seq<char>) -> Seq<char> {
    if target.len() > 0 && target[0] == SEPARATOR {
        target
    } else {
        parent_prefix(link) + target
    }
}

proof fn lemma_last_component_bounds(path: Seq<char>)
    ensures
        last_component(path).len() <= path.len(),
        last_component(path) == path.subrange(
            path.len() - last_component(path).len(),
            path.len() as int,
        ),
        forall|k: int| 0 <= k < last_component(path).len() ==> last_component(path)[k] != SEPARATOR,
        last_component(path).len() < path.len() ==> path[path.len() - last_component(path).len()
            - 1] == SEPARATOR,
    decreases path.len(),
{
    if path.len() > 0 && path.last() != SEPARATOR {
        let shorter = path.drop_last();
        lemma_last_component_bounds(shorter);
    }
}

proof fn lemma_trim_end_bounds(path: Seq<char>)
    ensures
        trim_end(path).len() <= path.len(),
        trim_end(path) == path.subrange(0, trim_end(path).len() as int),
        trim_end(path).len() > 0 ==> trim_end(path).last() != SEPARATOR,
        forall|k: int| trim_end(path).len() <= k < path.len() ==> path[k] == SEPARATOR,
    decreases path.len(),
{
    if path.len() > 0 && path.last() == SEPARATOR {
        let shorter = path.drop_last();
        lemma_trim_end_bounds(shorter);
        assert forall|k: int| trim_end(path).len() <= k < path.len() implies path[k]
            == SEPARATOR by {
            if k < shorter.len() {
                assert(shorter[k] == path[k]);
            }
        }
    }
}

/// A base name holds no separator, and lies in its path right after a
/// separator or at the path's start.
pub proof fn lemma_base_name_is_component(path: Seq<char>)
    ensures
        forall|k: int| 0 <= k < base_name(path).len() ==> base_name(path)[k] != SEPARATOR,
        base_name(path).len() <= path.len(),
        parent_prefix(path) + base_name(path) == trim_end(path),
        parent_prefix(path).len() > 0 ==> parent_prefix(path).last() == SEPARATOR,
{
    lemma_trim_end_bounds(path);
    lemma_last_component_bounds(trim_end(path));
}

/// The characters of a string, one by one.
fn characters(text: &str) -> (v: Vec<char>)
    ensures
        v@ == text@,
{
    let mut v: Vec<char> = Vec::new();
    for c in it: text.chars()
        invariant
            it.seq() == text@,
            v@ == text@.subrange(0, it.index() as int),
    {
        v.push(c);
    }
    v
}

/// Where the base name of a path starts and ends, counted in characters.
fn base_name_span(chars: &Vec<char>) -> (span: (usize, usize))
    ensures
        span.0 <= span.1 <= chars@.len(),
        span.1 == trim_end(chars@).len(),
        span.1 - span.0 == base_name(chars@).len(),
        chars@.subrange(span.0 as int, span.1 as int) == base_name(chars@),
        chars@.subrange(0, span.0 as int) == parent_prefix(chars@),
{
    let mut end: usize = chars.len();
    assert(chars@.subrange(0, end as int) =~= chars@);
    while end > 0 && chars[end - 1] == SEPARATOR
        invariant
            end <= chars@.len(),
            trim_end(chars@) == trim_end(chars@.subrange(0, end as int)),
        decreases end,
    {
        assert(chars@.subrange(0, end as int).drop_last() =~= chars@.subrange(0, end - 1));
        end -= 1;
    }
    let ghost trimmed = chars@.subrange(0, end as int);
    let mut start: usize = end;
    assert(trimmed.subrange(0, start as int) =~= trimmed);
    assert(last_component(trimmed) + trimmed.subrange(start as int, end as int) =~= last_component(
        trimmed,
    ));
    while start > 0 && chars[start - 1] != SEPARATOR
        invariant
            start <= end <= chars@.len(),
            trimmed == chars@.subrange(0, end as int),
            last_component(trimmed) == last_component(trimmed.subrange(0, start as int))
                + trimmed.subrange(start as int, end as int),
        decreases start,
    {
        let ghost before = trimmed.subrange(0, start as int);
        assert(before.drop_last() =~= trimmed.subrange(0, start - 1));
        assert(last_component(before.drop_last()).push(before.last()) + trimmed.subrange(
            start as int,
            end as int,
        ) =~= last_component(before.drop_last()) + trimmed.subrange(start - 1, end as int));
        start -= 1;
    }
    proof {
        assert(trimmed.subrange(start as int, end as int) =~= chars@.subrange(
            start as int,
            end as int,
        ));
    }
    (start, end)
}

/// The base name of a path.
pub fn base_name_of(path: &str) -> (name: String)
    ensures
        name@ == base_name(path@),
{
    let chars = characters(path);
    let (start, end) = base_name_span(&chars);
    String::from_str(path.substring_char(start, end))
}

/// The place that the link at `link` names by `target`.
pub fn destination_of(link: &str, target: &str) -> (place: String)
    ensures
        place@ == link_destination(link@, target@),
{
    if !target.is_empty() && target.get_char(0) == SEPARATOR {
        String::from_str(target)
    } else {
        let chars = characters(link);
        let (start, _end) = base_name_span(&chars);
        String::from_str(link.substring_char(0, start)).concat(target)
    }
}

} // verus!
