//! Character-level text utilities shared by the hashing and chunking code.
//!
//! All logic here works on `Vec<char>` / `Seq<char>`; the only unverified
//! parts are the two conversions between `str` and `Vec<char>`.

use vstd::prelude::*;

verus! {

/// Relies on `str::chars` and `Iterator::collect` for `Vec`: the resulting
/// vector holds exactly the characters of the string, in order, which is the
/// string's view in vstd.
#[verifier::external_body]
pub fn str_to_chars(s: &str) -> (r: Vec<char>)
    ensures
        r@ == s@,
{
    s.chars().collect()
}

/// Relies on `String`'s `FromIterator<char>` implementation: the resulting
/// string holds exactly the characters of the vector, in order.
#[verifier::external_body]
pub fn chars_to_string(v: &Vec<char>) -> (r: String)
    ensures
        r@ == v@,
{
    v.iter().collect()
}

/// Character-wise string equality.
pub fn str_eq(a: &str, b: &str) -> (r: bool)
    ensures
        r == (a@ == b@),
{
    let va = str_to_chars(a);
    let vb = str_to_chars(b);
    if va.len() != vb.len() {
        return false;
    }
    let mut i: usize = 0;
    while i < va.len()
        invariant
            i <= va.len(),
            va@ == a@,
            vb@ == b@,
            va@.len() == vb@.len(),
            forall|t: int| 0 <= t < i ==> va@[t] == vb@[t],
        decreases va.len() - i,
    {
        if va[i] != vb[i] {
            return false;
        }
        i = i + 1;
    }
    proof {
        assert(a@ =~= b@);
    }
    true
}

/// The Unicode `White_Space` code points, as used by `char::is_whitespace`.
pub open spec fn char_is_ws(c: char) -> bool {
    c == ' ' || (0x9 <= c as u32 && c as u32 <= 0xd) || c as u32 == 0x85 || c as u32 == 0xa0
        || c as u32 == 0x1680 || (0x2000 <= c as u32 && c as u32 <= 0x200a) || c as u32 == 0x2028
        || c as u32 == 0x2029 || c as u32 == 0x202f || c as u32 == 0x205f || c as u32 == 0x3000
}

/// Whitespace test matching `char_is_ws`.
pub fn is_ws(c: char) -> (r: bool)
    ensures
        r == char_is_ws(c),
{
    let u = c as u32;
    u == 0x20 || (0x9 <= u && u <= 0xd) || u == 0x85 || u == 0xa0 || u == 0x1680 || (0x2000 <= u
        && u <= 0x200a) || u == 0x2028 || u == 0x2029 || u == 0x202f || u == 0x205f || u == 0x3000
}

pub open spec fn drop_leading_ws(s: Seq<char>) -> Seq<char>
    decreases s.len(),
{
    if s.len() > 0 && char_is_ws(s[0]) {
        drop_leading_ws(s.skip(1))
    } else {
        s
    }
}

pub open spec fn drop_trailing_ws(s: Seq<char>) -> Seq<char>
    decreases s.len(),
{
    if s.len() > 0 && char_is_ws(s.last()) {
        drop_trailing_ws(s.drop_last())
    } else {
        s
    }
}

/// What `str::trim` returns: the sequence with leading and trailing
/// whitespace removed.
pub open spec fn spec_trim(s: Seq<char>) -> Seq<char> {
    drop_trailing_ws(drop_leading_ws(s))
}

proof fn lemma_drop_leading_to_skip(s: Seq<char>, k: int)
    requires
        0 <= k <= s.len(),
        forall|i: int| 0 <= i < k ==> char_is_ws(s[i]),
        k == s.len() || !char_is_ws(s[k]),
    ensures
        drop_leading_ws(s) =~= s.skip(k),
    decreases k,
{
    if k == 0 {
        if s.len() > 0 && char_is_ws(s[0]) {
        } else {
            assert(s.skip(0) =~= s);
        }
    } else {
        assert(char_is_ws(s[0]));
        lemma_drop_leading_to_skip(s.skip(1), k - 1);
        assert(s.skip(1).skip(k - 1) =~= s.skip(k));
    }
}

proof fn lemma_drop_trailing_to_take(s: Seq<char>, k: int)
    requires
        0 <= k <= s.len(),
        forall|i: int| k <= i < s.len() ==> char_is_ws(s[i]),
        k == 0 || !char_is_ws(s[k - 1]),
    ensures
        drop_trailing_ws(s) =~= s.take(k),
    decreases s.len() - k,
{
    if k == s.len() {
        if s.len() > 0 && char_is_ws(s.last()) {
        } else {
            assert(s.take(k) =~= s);
        }
    } else {
        assert(char_is_ws(s.last()));
        assert(s.drop_last() =~= s.take(s.len() - 1));
        lemma_drop_trailing_to_take(s.drop_last(), k);
    }
}

/// Keeps the characters that carry content.
pub open spec fn keep_nonws() -> spec_fn(char) -> bool {
    |c: char| !char_is_ws(c)
}

/// Dropping a leading whitespace run loses no content characters.
proof fn lemma_drop_leading_ws_filter(s: Seq<char>)
    ensures
        drop_leading_ws(s).filter(keep_nonws()) == s.filter(keep_nonws()),
    decreases s.len(),
{
    reveal(Seq::filter);
    if s.len() > 0 && char_is_ws(s[0]) {
        lemma_drop_leading_ws_filter(s.skip(1));
        assert(s =~= seq![s[0]] + s.skip(1));
        Seq::<char>::filter_distributes_over_add(seq![s[0]], s.skip(1), keep_nonws());
        assert(seq![s[0]].drop_last() =~= Seq::<char>::empty());
        assert(Seq::<char>::empty().filter(keep_nonws()) =~= Seq::<char>::empty());
        assert(!(keep_nonws()(s[0])));
        assert(seq![s[0]].filter(keep_nonws()) =~= Seq::<char>::empty());
        assert(s.filter(keep_nonws()) == seq![s[0]].filter(keep_nonws()) + s.skip(1).filter(
            keep_nonws(),
        ));
        assert(s.filter(keep_nonws()) =~= s.skip(1).filter(keep_nonws()));
    }
}

/// Dropping a trailing whitespace run loses no content characters.
proof fn lemma_drop_trailing_ws_filter(s: Seq<char>)
    ensures
        drop_trailing_ws(s).filter(keep_nonws()) == s.filter(keep_nonws()),
    decreases s.len(),
{
    reveal(Seq::filter);
    if s.len() > 0 && char_is_ws(s.last()) {
        lemma_drop_trailing_ws_filter(s.drop_last());
    }
}

/// Trimming loses no content characters.
pub proof fn lemma_trim_preserves_nonws(s: Seq<char>)
    ensures
        spec_trim(s).filter(keep_nonws()) == s.filter(keep_nonws()),
{
    lemma_drop_leading_ws_filter(s);
    lemma_drop_trailing_ws_filter(drop_leading_ws(s));
}

/// A sequence that trims to nothing holds no content characters.
pub proof fn lemma_trim_empty_no_content(s: Seq<char>)
    requires
        spec_trim(s).len() == 0,
    ensures
        s.filter(keep_nonws()) == Seq::<char>::empty(),
{
    reveal(Seq::filter);
    lemma_trim_preserves_nonws(s);
    assert(spec_trim(s) =~= Seq::<char>::empty());
}

proof fn lemma_drop_leading_ws_head(s: Seq<char>)
    ensures
        drop_leading_ws(s).len() > 0 ==> !char_is_ws(drop_leading_ws(s)[0]),
    decreases s.len(),
{
    if s.len() > 0 && char_is_ws(s[0]) {
        lemma_drop_leading_ws_head(s.skip(1));
    }
}

proof fn lemma_drop_trailing_ws_last(s: Seq<char>)
    ensures
        drop_trailing_ws(s).len() > 0 ==> !char_is_ws(drop_trailing_ws(s).last()),
    decreases s.len(),
{
    if s.len() > 0 && char_is_ws(s.last()) {
        lemma_drop_trailing_ws_last(s.drop_last());
    }
}

proof fn lemma_drop_trailing_ws_prefix(s: Seq<char>)
    ensures
        drop_trailing_ws(s).len() <= s.len(),
        forall|i: int|
            0 <= i < drop_trailing_ws(s).len() ==> #[trigger] drop_trailing_ws(s)[i] == s[i],
    decreases s.len(),
{
    if s.len() > 0 && char_is_ws(s.last()) {
        lemma_drop_trailing_ws_prefix(s.drop_last());
    }
}

/// Trimming is idempotent: a trimmed sequence trims to itself.
pub proof fn lemma_trim_idempotent(s: Seq<char>)
    ensures
        spec_trim(spec_trim(s)) == spec_trim(s),
{
    let u = drop_leading_ws(s);
    let t = drop_trailing_ws(u);
    if t.len() == 0 {
        assert(drop_leading_ws(t) =~= t);
        assert(drop_trailing_ws(drop_leading_ws(t)) =~= t);
    } else {
        lemma_drop_trailing_ws_prefix(u);
        lemma_drop_leading_ws_head(s);
        assert(t[0] == u[0]);
        assert(!char_is_ws(t[0]));
        assert(drop_leading_ws(t) == t);
        lemma_drop_trailing_ws_last(u);
        assert(!char_is_ws(t.last()));
        assert(drop_trailing_ws(t) == t);
    }
}

/// `str::trim` over a character vector.
pub fn trim_chars(v: &Vec<char>) -> (r: Vec<char>)
    ensures
        r@ == spec_trim(v@),
{
    let mut a: usize = 0;
    while a < v.len() && is_ws(v[a])
        invariant
            a <= v.len(),
            forall|i: int| 0 <= i < a ==> char_is_ws(v@[i]),
        decreases v.len() - a,
    {
        a = a + 1;
    }
    let mut b: usize = v.len();
    while b > a && is_ws(v[b - 1])
        invariant
            a <= b <= v.len(),
            forall|i: int| b <= i < v.len() ==> char_is_ws(v@[i]),
        decreases b,
    {
        b = b - 1;
    }
    let mut out: Vec<char> = Vec::new();
    let mut i: usize = a;
    while i < b
        invariant
            a <= i <= b <= v.len(),
            out@ =~= v@.subrange(a as int, i as int),
        decreases b - i,
    {
        out.push(v[i]);
        i = i + 1;
    }
    proof {
        lemma_drop_leading_to_skip(v@, a as int);
        if b == a {
            lemma_drop_trailing_to_take(v@.skip(a as int), 0);
        } else {
            lemma_drop_trailing_to_take(v@.skip(a as int), b - a);
        }
        assert(v@.skip(a as int).take(b - a) =~= v@.subrange(a as int, b as int));
        assert(out@ =~= v@.subrange(a as int, b as int));
    }
    out
}

} // verus!
