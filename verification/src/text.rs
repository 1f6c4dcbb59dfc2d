//! Whitespace trimming of text content, as `str::trim` does it.

use vstd::prelude::*;
use vstd::string::*;

verus! {

/// Whether `c` has the Unicode `White_Space` property: the 25 code points
/// U+0009..=U+000D, U+0020, U+0085, U+00A0, U+1680, U+2000..=U+200A,
/// U+2028, U+2029, U+202F, U+205F and U+3000.
pub open spec fn unicode_white_space(c: char) -> bool {
    let u = c as u32;
    ||| 0x09 <= u <= 0x0D
    ||| u == 0x20
    ||| u == 0x85
    ||| u == 0xA0
    ||| u == 0x1680
    ||| 0x2000 <= u <= 0x200A
    ||| u == 0x2028
    ||| u == 0x2029
    ||| u == 0x202F
    ||| u == 0x205F
    ||| u == 0x3000
}

/// Whether `c` is whitespace, as `char::is_whitespace` decides it: whether
/// it has the `White_Space` property.
pub fn is_white_space(c: char) -> (r: bool)
    ensures
        r == unicode_white_space(c),
{
    let u = c as u32;
    (0x09 <= u && u <= 0x0D) || u == 0x20 || u == 0x85 || u == 0xA0 || u == 0x1680 || (0x2000
        <= u && u <= 0x200A) || u == 0x2028 || u == 0x2029 || u == 0x202F || u == 0x205F || u
        == 0x3000
}

/// `s` without its leading whitespace.
pub open spec fn trim_start_seq(s: Seq<char>) -> Seq<char>
    decreases s.len(),
{
    if s.len() > 0 && unicode_white_space(s[0]) {
        trim_start_seq(s.drop_first())
    } else {
        s
    }
}

/// `s` without its trailing whitespace.
pub open spec fn trim_end_seq(s: Seq<char>) -> Seq<char>
    decreases s.len(),
{
    if s.len() > 0 && unicode_white_space(s.last()) {
        trim_end_seq(s.drop_last())
    } else {
        s
    }
}

/// `s` without its leading and trailing whitespace.
pub open spec fn trim_seq(s: Seq<char>) -> Seq<char> {
    trim_end_seq(trim_start_seq(s))
}

/// Skipping a run of whitespace at the front of `s` that ends at `a`
/// (at a non-whitespace character or the end) leaves `s[a..]`.
proof fn lemma_trim_start_at(s: Seq<char>, a: int)
    requires
        0 <= a <= s.len(),
        forall|k: int| 0 <= k < a ==> unicode_white_space(#[trigger] s[k]),
        a == s.len() || !unicode_white_space(s[a]),
    ensures
        trim_start_seq(s) == s.subrange(a, s.len() as int),
    decreases a,
{
    if a == 0 {
        assert(s.subrange(0, s.len() as int) =~= s);
    } else {
        let t = s.drop_first();
        assert forall|k: int| 0 <= k < a - 1 implies unicode_white_space(#[trigger] t[k]) by {
            assert(t[k] == s[k + 1]);
        }
        if a - 1 < t.len() {
            assert(t[a - 1] == s[a]);
        }
        lemma_trim_start_at(t, a - 1);
        assert(t.subrange(a - 1, t.len() as int) =~= s.subrange(a, s.len() as int));
    }
}

/// Skipping a run of whitespace at the back of `s` that starts at `b`
/// (after a non-whitespace character or at the start) leaves `s[..b]`.
proof fn lemma_trim_end_at(s: Seq<char>, b: int)
    requires
        0 <= b <= s.len(),
        forall|k: int| b <= k < s.len() ==> unicode_white_space(#[trigger] s[k]),
        b == 0 || !unicode_white_space(s[b - 1]),
    ensures
        trim_end_seq(s) == s.subrange(0, b),
    decreases s.len() - b,
{
    if b == s.len() {
        assert(s.subrange(0, b) =~= s);
    } else {
        let t = s.drop_last();
        assert forall|k: int| b <= k < t.len() implies unicode_white_space(#[trigger] t[k]) by {
            assert(t[k] == s[k]);
        }
        if b > 0 {
            assert(t[b - 1] == s[b - 1]);
        }
        lemma_trim_end_at(t, b);
        assert(t.subrange(0, b) =~= s.subrange(0, b));
    }
}

/// The characters of `s`, in order.
fn chars_of(s: &str) -> (r: Vec<char>)
    ensures
        r@ == s@,
{
    broadcast use vstd::string::group_string_axioms;

    let mut v: Vec<char> = Vec::new();
    for c in it: s.chars()
        invariant
            it.seq() == s@,
            v@ == it.seq().take(it.index() as int),
    {
        v.push(c);
        assert(v@ =~= it.seq().take(it.index() + 1));
    }
    assert(s@.take(s@.len() as int) =~= s@);
    v
}

/// A text part as characters.
pub open spec fn part_view(p: Option<String>) -> Option<Seq<char>> {
    match p {
        Some(s) => Some(s@),
        None => None,
    }
}

/// Text parts as characters.
pub open spec fn parts_view(ps: Seq<Option<String>>) -> Seq<Option<Seq<char>>> {
    ps.map_values(|p: Option<String>| part_view(p))
}

/// The parts that are present, joined in order.
pub open spec fn join_parts(parts: Seq<Option<Seq<char>>>) -> Seq<char>
    decreases parts.len(),
{
    if parts.len() == 0 {
        Seq::empty()
    } else {
        join_parts(parts.drop_last()) + match parts.last() {
            Some(t) => t,
            None => Seq::empty(),
        }
    }
}

/// Joining is concatenation of the present parts in order: joining two
/// runs of parts one after the other gives the two joins one after the
/// other, a missing part contributes nothing, and a present part
/// contributes exactly its text.
pub proof fn law_join_parts_concatenates(
    p: Seq<Option<Seq<char>>>,
    q: Seq<Option<Seq<char>>>,
    t: Seq<char>,
)
    ensures
        join_parts(p + q) == join_parts(p) + join_parts(q),
        join_parts(seq![None]) == Seq::<char>::empty(),
        join_parts(seq![Some(t)]) == t,
    decreases q.len(),
{
    let none: Seq<Option<Seq<char>>> = seq![None];
    let one: Seq<Option<Seq<char>>> = seq![Some(t)];
    assert(none.drop_last() =~= Seq::<Option<Seq<char>>>::empty());
    assert(one.drop_last() =~= Seq::<Option<Seq<char>>>::empty());
    assert(join_parts(Seq::<Option<Seq<char>>>::empty()) == Seq::<char>::empty());
    assert(join_parts(none) =~= Seq::<char>::empty());
    assert(join_parts(one) =~= t);
    if q.len() == 0 {
        assert(p + q =~= p);
        assert(join_parts(p) + join_parts(q) =~= join_parts(p));
    } else {
        assert((p + q).drop_last() =~= p + q.drop_last());
        assert((p + q).last() == q.last());
        law_join_parts_concatenates(p, q.drop_last(), t);
        assert(join_parts(p + q) =~= join_parts(p) + join_parts(q));
    }
}

/// The text painted for a box whose DOM node's children contribute
/// `parts`, in order (the content of each text child, `None` for any
/// other child): the contents joined, then trimmed.
pub fn painted_text(parts: &Vec<Option<String>>) -> (r: String)
    ensures
        r@ == trim_seq(join_parts(parts_view(parts@))),
{
    let mut content = String::new();
    let n = parts.len();
    let mut i: usize = 0;
    while i < n
        invariant
            n == parts@.len(),
            i <= n,
            content@ == join_parts(parts_view(parts@.take(i as int))),
        decreases n - i,
    {
        match &parts[i] {
            Some(t) => {
                content.append(t.as_str());
            },
            None => {},
        }
        assert(parts_view(parts@.take(i + 1)).drop_last() =~= parts_view(parts@.take(i as int)));
        i = i + 1;
    }
    assert(parts@.take(n as int) =~= parts@);
    trim(content.as_str())
}

/// `s` with leading and trailing whitespace removed, as `str::trim` gives
/// it: whitespace is what `char::is_whitespace` accepts.
pub fn trim(s: &str) -> (r: String)
    ensures
        r@ == trim_seq(s@),
{
    let cs = chars_of(s);
    let n = cs.len();
    let mut a: usize = 0;
    while a < n && is_white_space(cs[a])
        invariant
            n == cs@.len(),
            cs@ == s@,
            a <= n,
            forall|k: int| 0 <= k < a ==> unicode_white_space(#[trigger] s@[k]),
        decreases n - a,
    {
        a = a + 1;
    }
    proof {
        lemma_trim_start_at(s@, a as int);
    }
    let ghost rest = s@.subrange(a as int, n as int);
    let mut b: usize = n;
    while b > a && is_white_space(cs[b - 1])
        invariant
            n == cs@.len(),
            cs@ == s@,
            a <= b <= n,
            rest == s@.subrange(a as int, n as int),
            forall|k: int| b <= k < n ==> unicode_white_space(#[trigger] s@[k]),
        decreases b,
    {
        b = b - 1;
    }
    proof {
        let bb = b - a;
        assert forall|k: int| bb <= k < rest.len() implies unicode_white_space(#[trigger] rest[k]) by {
            assert(rest[k] == s@[k + a]);
        }
        if bb > 0 {
            assert(rest[bb - 1] == s@[b - 1]);
        }
        lemma_trim_end_at(rest, bb as int);
        assert(rest.subrange(0, bb as int) =~= s@.subrange(a as int, b as int));
    }
    String::from_str(s.substring_char(a, b))
}


/// `trim_start_seq(s)` is `s` from the first character that is not
/// whitespace (or empty when there is none).
proof fn lemma_trim_start_shape(s: Seq<char>) -> (a: int)
    ensures
        0 <= a <= s.len(),
        trim_start_seq(s) == s.subrange(a, s.len() as int),
        forall|k: int| 0 <= k < a ==> unicode_white_space(#[trigger] s[k]),
        a == s.len() || !unicode_white_space(s[a]),
    decreases s.len(),
{
    if s.len() > 0 && unicode_white_space(s[0]) {
        let t = s.drop_first();
        let a1 = lemma_trim_start_shape(t);
        assert forall|k: int| 0 <= k < a1 + 1 implies unicode_white_space(#[trigger] s[k]) by {
            if k > 0 {
                assert(s[k] == t[k - 1]);
            }
        }
        if a1 < t.len() {
            assert(s[a1 + 1] == t[a1]);
        }
        assert(t.subrange(a1, t.len() as int) =~= s.subrange(a1 + 1, s.len() as int));
        a1 + 1
    } else {
        assert(s.subrange(0, s.len() as int) =~= s);
        0
    }
}

/// `trim_end_seq(s)` is `s` up to the last character that is not
/// whitespace (or empty when there is none).
proof fn lemma_trim_end_shape(s: Seq<char>) -> (b: int)
    ensures
        0 <= b <= s.len(),
        trim_end_seq(s) == s.subrange(0, b),
        forall|k: int| b <= k < s.len() ==> unicode_white_space(#[trigger] s[k]),
        b == 0 || !unicode_white_space(s[b - 1]),
    decreases s.len(),
{
    if s.len() > 0 && unicode_white_space(s.last()) {
        let t = s.drop_last();
        let b1 = lemma_trim_end_shape(t);
        assert forall|k: int| b1 <= k < s.len() implies unicode_white_space(#[trigger] s[k]) by {
            if k < t.len() {
                assert(s[k] == t[k]);
            }
        }
        if b1 > 0 {
            assert(s[b1 - 1] == t[b1 - 1]);
        }
        assert(t.subrange(0, b1) =~= s.subrange(0, b1));
        b1
    } else {
        assert(s.subrange(0, s.len() as int) =~= s);
        s.len() as int
    }
}

/// Trimming cuts `s` to one contiguous piece: everything before it and
/// after it is whitespace, and the piece, when not empty, starts and ends
/// with a character that is not whitespace.
pub proof fn law_trim_cuts_whitespace_ends(s: Seq<char>)
    ensures
        exists|a: int, b: int|
            {
                &&& 0 <= a <= b <= s.len()
                &&& trim_seq(s) == s.subrange(a, b)
                &&& forall|k: int| 0 <= k < a ==> unicode_white_space(#[trigger] s[k])
                &&& forall|k: int| b <= k < s.len() ==> unicode_white_space(#[trigger] s[k])
                &&& a < b ==> !unicode_white_space(s[a]) && !unicode_white_space(s[b - 1])
            },
{
    let a = lemma_trim_start_shape(s);
    let t = s.subrange(a, s.len() as int);
    let bt = lemma_trim_end_shape(t);
    let b = a + bt;
    assert(t.subrange(0, bt) =~= s.subrange(a, b));
    assert forall|k: int| b <= k < s.len() implies unicode_white_space(#[trigger] s[k]) by {
        assert(s[k] == t[k - a]);
    }
    if a < b {
        assert(s[b - 1] == t[bt - 1]);
    }
}

/// The trimmed text of a string starts and ends with a character that is
/// not whitespace, unless it is empty.
pub proof fn law_trim_ends_not_whitespace(s: Seq<char>)
    ensures
        trim_seq(s).len() > 0 ==> !unicode_white_space(trim_seq(s)[0]) && !unicode_white_space(
            trim_seq(s).last(),
        ),
{
    law_trim_cuts_whitespace_ends(s);
}

/// Trimming twice is trimming once.
pub proof fn law_trim_idempotent(s: Seq<char>)
    ensures
        trim_seq(trim_seq(s)) == trim_seq(s),
{
    law_trim_ends_not_whitespace(s);
    let t = trim_seq(s);
    assert(trim_start_seq(t) == t);
    assert(trim_end_seq(t) == t);
}

} // verus!
