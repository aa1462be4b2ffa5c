//! Text helpers: ordering of texts and of optional names.

use vstd::prelude::*;

verus! {

/// Lexicographic order of texts by Unicode code point (the order of `str`).
pub open spec fn text_le(a: Seq<char>, b: Seq<char>) -> bool
    decreases a.len(),
{
    if a.len() == 0 {
        true
    } else if b.len() == 0 {
        false
    } else if (a[0] as u32) != (b[0] as u32) {
        (a[0] as u32) < (b[0] as u32)
    } else {
        text_le(a.drop_first(), b.drop_first())
    }
}

/// Order of optional names: a missing name comes before every present one.
pub open spec fn name_le(a: Option<Seq<char>>, b: Option<Seq<char>>) -> bool {
    match (a, b) {
        (None, _) => true,
        (Some(_), None) => false,
        (Some(x), Some(y)) => text_le(x, y),
    }
}

pub proof fn lemma_text_le_total(a: Seq<char>, b: Seq<char>)
    ensures
        text_le(a, b) || text_le(b, a),
    decreases a.len(),
{
    if a.len() > 0 && b.len() > 0 && (a[0] as u32) == (b[0] as u32) {
        lemma_text_le_total(a.drop_first(), b.drop_first());
    }
}

pub proof fn lemma_text_le_transitive(a: Seq<char>, b: Seq<char>, c: Seq<char>)
    requires
        text_le(a, b),
        text_le(b, c),
    ensures
        text_le(a, c),
    decreases a.len(),
{
    if a.len() > 0 && b.len() > 0 && c.len() > 0 && (a[0] as u32) == (b[0] as u32) && (b[0] as u32) == (c[0] as u32) {
        lemma_text_le_transitive(a.drop_first(), b.drop_first(), c.drop_first());
    }
}

pub proof fn lemma_name_le_total(a: Option<Seq<char>>, b: Option<Seq<char>>)
    ensures
        name_le(a, b) || name_le(b, a),
{
    if a is Some && b is Some {
        lemma_text_le_total(a->Some_0, b->Some_0);
    }
}

pub proof fn lemma_name_le_transitive(
    a: Option<Seq<char>>,
    b: Option<Seq<char>>,
    c: Option<Seq<char>>,
)
    requires
        name_le(a, b),
        name_le(b, c),
    ensures
        name_le(a, c),
{
    if a is Some && b is Some && c is Some {
        lemma_text_le_transitive(a->Some_0, b->Some_0, c->Some_0);
    }
}

/// Compares two texts in code point order; `true` when `a` comes first or
/// both are equal.
pub fn text_less_or_equal(a: &str, b: &str) -> (r: bool)
    ensures
        r == text_le(a@, b@),
{
    let la = a.unicode_len();
    let lb = b.unicode_len();
    let mut i: usize = 0;
    proof {
        assert(a@.subrange(0, la as int) =~= a@);
        assert(b@.subrange(0, lb as int) =~= b@);
    }
    while i < la && i < lb
        invariant
            la == a@.len(),
            lb == b@.len(),
            i <= la,
            i <= lb,
            text_le(a@, b@) == text_le(a@.subrange(i as int, la as int), b@.subrange(i as int, lb as int)),
        decreases la - i,
    {
        let ca = a.get_char(i);
        let cb = b.get_char(i);
        if (ca as u32) != (cb as u32) {
            return (ca as u32) < (cb as u32);
        }
        proof {
            assert(a@.subrange(i as int, la as int).drop_first() =~= a@.subrange(i + 1, la as int));
            assert(b@.subrange(i as int, lb as int).drop_first() =~= b@.subrange(i + 1, lb as int));
        }
        i = i + 1;
    }
    i == la
}

/// Compares two optional names; a missing name comes first.
pub fn name_less_or_equal(a: &Option<String>, b: &Option<String>) -> (r: bool)
    ensures
        r == name_le(a.deep_view(), b.deep_view()),
{
    match (a, b) {
        (None, _) => true,
        (Some(_), None) => false,
        (Some(x), Some(y)) => text_less_or_equal(x.as_str(), y.as_str()),
    }
}

/// Equality of two texts, character by character.
pub fn text_equal(a: &str, b: &str) -> (r: bool)
    ensures
        r == (a@ == b@),
{
    let la = a.unicode_len();
    let lb = b.unicode_len();
    if la != lb {
        return false;
    }
    let mut i: usize = 0;
    while i < la
        invariant
            la == a@.len(),
            lb == b@.len(),
            la == lb,
            i <= la,
            forall|k: int| 0 <= k < i ==> a@[k] == b@[k],
        decreases la - i,
    {
        if a.get_char(i) != b.get_char(i) {
            return false;
        }
        i = i + 1;
    }
    proof {
        assert(a@ =~= b@);
    }
    true
}

/// A copy of an optional text.
pub fn clone_text(o: &Option<String>) -> (r: Option<String>)
    ensures
        r == *o,
{
    match o {
        Some(s) => Some(s.clone()),
        None => None,
    }
}

/// Characters that trimming removes from both ends of a text.
#[derive(Clone, Copy, PartialEq, Eq, Structural)]
pub enum Strip {
    /// Characters with the Unicode `White_Space` property.
    WhiteSpace,
    /// The character `/`.
    Slash,
}

pub open spec fn is_white_space(c: char) -> bool {
    let u = c as u32;
    (0x9 <= u <= 0xD) || u == 0x20 || u == 0x85 || u == 0xA0 || u == 0x1680 || (0x2000 <= u
        <= 0x200A) || u == 0x2028 || u == 0x2029 || u == 0x202F || u == 0x205F || u == 0x3000
}

pub open spec fn stripped(c: char, strip: Strip) -> bool {
    match strip {
        Strip::WhiteSpace => is_white_space(c),
        Strip::Slash => c == '/',
    }
}

pub open spec fn trim_start(s: Seq<char>, strip: Strip) -> Seq<char>
    decreases s.len(),
{
    if s.len() > 0 && stripped(s[0], strip) {
        trim_start(s.drop_first(), strip)
    } else {
        s
    }
}

pub open spec fn trim_end(s: Seq<char>, strip: Strip) -> Seq<char>
    decreases s.len(),
{
    if s.len() > 0 && stripped(s[s.len() - 1], strip) {
        trim_end(s.drop_last(), strip)
    } else {
        s
    }
}

/// A text without the stripped characters at either end.
pub open spec fn trimmed(s: Seq<char>, strip: Strip) -> Seq<char> {
    trim_end(trim_start(s, strip), strip)
}

fn is_stripped(c: char, strip: Strip) -> (r: bool)
    ensures
        r == stripped(c, strip),
{
    match strip {
        Strip::WhiteSpace => {
            let u = c as u32;
            (0x9 <= u && u <= 0xD) || u == 0x20 || u == 0x85 || u == 0xA0 || u == 0x1680 || (0x2000
                <= u && u <= 0x200A) || u == 0x2028 || u == 0x2029 || u == 0x202F || u == 0x205F
                || u == 0x3000
        },
        Strip::Slash => c == '/',
    }
}

/// Removes the stripped characters from both ends of a text.
pub fn trim(s: &str, strip: Strip) -> (r: String)
    ensures
        r@ == trimmed(s@, strip),
{
    let len = s.unicode_len();
    let mut a: usize = 0;
    proof {
        assert(s@.subrange(0, len as int) =~= s@);
    }
    while a < len && is_stripped(s.get_char(a), strip)
        invariant
            len == s@.len(),
            a <= len,
            trim_start(s@, strip) == trim_start(s@.subrange(a as int, len as int), strip),
        decreases len - a,
    {
        proof {
            assert(s@.subrange(a as int, len as int).drop_first() =~= s@.subrange(a + 1, len as int));
        }
        a = a + 1;
    }
    let ghost front = s@.subrange(a as int, len as int);
    assert(trim_start(front, strip) == front);
    let mut b: usize = len;
    proof {
        assert(front.subrange(0, (b - a) as int) =~= front);
    }
    while b > a && is_stripped(s.get_char(b - 1), strip)
        invariant
            len == s@.len(),
            a <= b <= len,
            front == s@.subrange(a as int, len as int),
            trim_end(front, strip) == trim_end(s@.subrange(a as int, b as int), strip),
        decreases b,
    {
        proof {
            assert(s@.subrange(a as int, b as int).drop_last() =~= s@.subrange(a as int, b - 1));
        }
        b = b - 1;
    }
    s.substring_char(a, b).to_string()
}

/// Names the result of lower-casing a text.
pub uninterp spec fn lower_of(s: Seq<char>) -> Seq<char>;

/// Relies on `str::to_lowercase`: the lower-case mapping of each character
/// depends on the text alone.
#[verifier::external_body]
pub(crate) fn lowercase(s: &str) -> (r: String)
    ensures
        r@ == lower_of(s@),
{
    s.to_lowercase()
}

/// Equality of optional texts.
pub fn same_text(a: &Option<String>, b: &Option<String>) -> (r: bool)
    ensures
        r == (a.deep_view() == b.deep_view()),
{
    match (a, b) {
        (None, None) => true,
        (Some(x), Some(y)) => *x == *y,
        _ => false,
    }
}

/// The views of a sequence of texts.
pub open spec fn texts_of(v: Seq<String>) -> Seq<Seq<char>> {
    v.map_values(|s: String| s@)
}

/// The parts joined, with `sep` between each two.
pub open spec fn join(parts: Seq<Seq<char>>, sep: Seq<char>) -> Seq<char>
    decreases parts.len(),
{
    if parts.len() == 0 {
        Seq::empty()
    } else if parts.len() == 1 {
        parts[0]
    } else {
        join(parts.drop_last(), sep) + sep + parts.last()
    }
}

/// Joins texts with a separator between each two.
pub fn join_texts(parts: &Vec<String>, sep: &str) -> (r: String)
    ensures
        r@ == join(texts_of(parts@), sep@),
{
    let mut r = String::new();
    let len = parts.len();
    let mut i: usize = 0;
    while i < len
        invariant
            len == parts@.len(),
            i <= len,
            r@ == join(texts_of(parts@.take(i as int)), sep@),
        decreases len - i,
    {
        if i > 0 {
            r.append(sep);
        }
        r.append(parts[i].as_str());
        proof {
            let t = texts_of(parts@.take(i + 1));
            assert(t.drop_last() =~= texts_of(parts@.take(i as int)));
            assert(t.last() == parts@[i as int]@);
            if i == 0 {
                assert(r@ =~= t[0]);
            }
        }
        i = i + 1;
    }
    proof {
        assert(parts@.take(len as int) =~= parts@);
    }
    r
}

/// The pieces of a text between occurrences of a separator character; a text
/// without the separator is one piece.
pub open spec fn split_on(s: Seq<char>, c: char) -> Seq<Seq<char>>
    decreases s.len(),
{
    if s.len() == 0 {
        seq![Seq::empty()]
    } else {
        let p = split_on(s.drop_last(), c);
        if s.last() == c {
            p.push(Seq::empty())
        } else {
            p.update(p.len() - 1, p.last().push(s.last()))
        }
    }
}

/// Splits a text at each occurrence of a separator character.
pub fn split_text(s: &str, c: char) -> (r: Vec<String>)
    ensures
        texts_of(r@) == split_on(s@, c),
{
    let len = s.unicode_len();
    let mut done: Vec<String> = Vec::new();
    let mut start: usize = 0;
    let mut i: usize = 0;
    proof {
        assert(s@.take(0) =~= Seq::<char>::empty());
        assert(texts_of(done@).push(s@.subrange(0, 0)) =~= seq![Seq::<char>::empty()]);
    }
    while i < len
        invariant
            len == s@.len(),
            start <= i <= len,
            split_on(s@.take(i as int), c) == texts_of(done@).push(s@.subrange(start as int, i as int)),
        decreases len - i,
    {
        let ch = s.get_char(i);
        proof {
            let t = s@.take(i + 1);
            assert(t.drop_last() =~= s@.take(i as int));
            assert(t.last() == ch);
        }
        if ch == c {
            let piece = s.substring_char(start, i).to_string();
            let ghost before = texts_of(done@);
            done.push(piece);
            proof {
                assert(texts_of(done@) =~= before.push(piece@));
                assert(s@.subrange(i + 1, i + 1) =~= Seq::<char>::empty());
            }
            start = i + 1;
        } else {
            proof {
                assert(s@.subrange(start as int, i + 1) =~= s@.subrange(start as int, i as int).push(ch));
                let p = texts_of(done@).push(s@.subrange(start as int, i as int));
                assert(p.update(p.len() - 1, p.last().push(ch)) =~= texts_of(done@).push(
                    s@.subrange(start as int, i + 1),
                ));
            }
        }
        i = i + 1;
    }
    let last = s.substring_char(start, len).to_string();
    let ghost before = texts_of(done@);
    done.push(last);
    proof {
        assert(texts_of(done@) =~= before.push(last@));
        assert(s@.take(len as int) =~= s@);
    }
    done
}

/// Strict order of texts by code point.
pub open spec fn text_lt(a: Seq<char>, b: Seq<char>) -> bool {
    text_le(a, b) && a != b
}

pub proof fn lemma_text_le_antisymmetric(a: Seq<char>, b: Seq<char>)
    requires
        text_le(a, b),
        text_le(b, a),
    ensures
        a == b,
    decreases a.len(),
{
    if a.len() > 0 && b.len() > 0 {
        lemma_text_le_antisymmetric(a.drop_first(), b.drop_first());
        lemma_char_code_injective(a[0], b[0]);
        assert(a =~= seq![a[0]] + a.drop_first());
        assert(b =~= seq![b[0]] + b.drop_first());
    } else {
        assert(a =~= b);
    }
}

proof fn lemma_char_code_injective(a: char, b: char)
    ensures
        (a as u32) == (b as u32) ==> a == b,
{
}

} // verus!
