//! Path and name handling: splitting paths into components, ordering names,
//! and the small string helpers the rest of the crate builds on.

use vstd::prelude::*;

verus! {

/// Append one character to a string, by `String::push`; trusted to append
/// exactly `c` to the characters of `s`.
#[verifier::external_body]
pub(crate) fn push_char(s: &mut String, c: char)
    ensures
        final(s)@ == old(s)@.push(c),
{
    s.push(c);
}

/// The characters of a string slice.
pub fn str_chars(s: &str) -> (v: Vec<char>)
    ensures
        v@ == s@,
{
    let mut v: Vec<char> = Vec::new();
    for c in it: s.chars()
        invariant
            v@ == it.seq().take(it.index() as int),
    {
        v.push(c);
    }
    v
}

/// A string holding the characters `cs[from..to]`.
pub fn string_from_chars(cs: &Vec<char>, from: usize, to: usize) -> (s: String)
    requires
        from <= to <= cs@.len(),
    ensures
        s@ == cs@.subrange(from as int, to as int),
{
    let mut s = String::new();
    let mut i = from;
    while i < to
        invariant
            from <= i <= to <= cs@.len(),
            s@ == cs@.subrange(from as int, i as int),
        decreases to - i,
    {
        push_char(&mut s, cs[i]);
        i = i + 1;
        assert(s@ =~= cs@.subrange(from as int, i as int));
    }
    s
}

// ---------------------------------------------------------------------------
// Path components
// ---------------------------------------------------------------------------

/// Scan state after reading a prefix of a path: the finished components and
/// the component being read.
pub open spec fn split_scan(s: Seq<char>) -> (Seq<Seq<char>>, Seq<char>)
    decreases s.len(),
{
    if s.len() == 0 {
        (Seq::empty(), Seq::empty())
    } else {
        let (done, cur) = split_scan(s.drop_last());
        let c = s.last();
        if c == '/' {
            if cur.len() > 0 {
                (done.push(cur), Seq::empty())
            } else {
                (done, Seq::empty())
            }
        } else {
            (done, cur.push(c))
        }
    }
}

/// The non-empty `/`-separated components of a path, in order.
pub open spec fn components(s: Seq<char>) -> Seq<Seq<char>> {
    let (done, cur) = split_scan(s);
    if cur.len() > 0 {
        done.push(cur)
    } else {
        done
    }
}

/// The views of a vector of strings.
pub open spec fn strings_view(v: Seq<String>) -> Seq<Seq<char>> {
    v.map_values(|s: String| s@)
}

proof fn lemma_split_scan_parts(s: Seq<char>)
    ensures
        forall|i: int|
            0 <= i < split_scan(s).0.len() ==> (#[trigger] split_scan(s).0[i]).len() > 0 && !split_scan(
                s,
            ).0[i].contains('/'),
        !split_scan(s).1.contains('/'),
    decreases s.len(),
{
    if s.len() > 0 {
        lemma_split_scan_parts(s.drop_last());
        let (done, cur) = split_scan(s.drop_last());
        let c = s.last();
        if c != '/' {
            assert forall|k: int| 0 <= k < cur.push(c).len() implies cur.push(c)[k] != '/' by {
                if k < cur.len() {
                    assert(!cur.contains('/'));
                    assert(cur[k] != '/');
                }
            }
        }
    }
}

/// Every component is non-empty and free of `/`.
pub proof fn lemma_components_wf(s: Seq<char>)
    ensures
        forall|i: int|
            0 <= i < components(s).len() ==> (#[trigger] components(s)[i]).len() > 0
                && !components(s)[i].contains('/'),
{
    lemma_split_scan_parts(s);
}

/// Split a path into its non-empty components, ignoring leading, trailing
/// and repeated `/`.
pub fn split_path(path: &str) -> (comps: Vec<String>)
    ensures
        strings_view(comps@) == components(path@),
{
    let cs = str_chars(path);
    let mut done: Vec<String> = Vec::new();
    let mut cur = String::new();
    let mut i: usize = 0;
    while i < cs.len()
        invariant
            i <= cs@.len(),
            cs@ == path@,
            (strings_view(done@), cur@) == split_scan(cs@.take(i as int)),
        decreases cs@.len() - i,
    {
        let c = cs[i];
        assert(cs@.take(i + 1).drop_last() =~= cs@.take(i as int));
        if c == '/' {
            if !cur.as_str().is_empty() {
                let ghost d = done@;
                let mut finished = String::new();
                std::mem::swap(&mut finished, &mut cur);
                done.push(finished);
                assert(strings_view(done@) =~= strings_view(d).push(finished@));
            } else {
                cur = String::new();
            }
        } else {
            push_char(&mut cur, c);
        }
        i = i + 1;
    }
    assert(cs@.take(cs@.len() as int) =~= cs@);
    if !cur.as_str().is_empty() {
        let ghost d = done@;
        done.push(cur);
        assert(strings_view(done@) =~= strings_view(d).push(split_scan(path@).1));
    }
    done
}

// ---------------------------------------------------------------------------
// Leading / trailing slashes
// ---------------------------------------------------------------------------

/// `s` without its leading `/` characters.
pub open spec fn trim_leading_slashes(s: Seq<char>) -> Seq<char>
    decreases s.len(),
{
    if s.len() > 0 && s[0] == '/' {
        trim_leading_slashes(s.drop_first())
    } else {
        s
    }
}

/// `s` without its trailing `/` characters.
pub open spec fn trim_trailing_slashes(s: Seq<char>) -> Seq<char>
    decreases s.len(),
{
    if s.len() > 0 && s.last() == '/' {
        trim_trailing_slashes(s.drop_last())
    } else {
        s
    }
}

/// Index of the first character of `s` that is not `/` (or `s.len()`).
pub(crate) fn first_non_slash(cs: &Vec<char>) -> (k: usize)
    ensures
        k <= cs@.len(),
        trim_leading_slashes(cs@) == cs@.subrange(k as int, cs@.len() as int),
{
    let mut k: usize = 0;
    assert(cs@.subrange(0, cs@.len() as int) =~= cs@);
    while k < cs.len() && cs[k] == '/'
        invariant
            k <= cs@.len(),
            trim_leading_slashes(cs@) == trim_leading_slashes(
                cs@.subrange(k as int, cs@.len() as int),
            ),
        decreases cs@.len() - k,
    {
        assert(cs@.subrange(k as int, cs@.len() as int).drop_first() =~= cs@.subrange(
            k + 1,
            cs@.len() as int,
        ));
        k = k + 1;
    }
    k
}

/// One past the index of the last character of `s` that is not `/` (or 0).
pub(crate) fn last_non_slash(cs: &Vec<char>) -> (k: usize)
    ensures
        k <= cs@.len(),
        trim_trailing_slashes(cs@) == cs@.subrange(0, k as int),
{
    let mut k: usize = cs.len();
    assert(cs@.subrange(0, k as int) =~= cs@);
    while k > 0 && cs[k - 1] == '/'
        invariant
            k <= cs@.len(),
            trim_trailing_slashes(cs@) == trim_trailing_slashes(cs@.subrange(0, k as int)),
        decreases k,
    {
        assert(cs@.subrange(0, k as int).drop_last() =~= cs@.subrange(0, k - 1));
        k = k - 1;
    }
    k
}

/// The absolute form `"/" + path` of a path, with any leading slashes of
/// `path` collapsed into the one.
pub fn normalize_path(path: &str) -> (r: String)
    ensures
        r@ == seq!['/'] + trim_leading_slashes(path@),
{
    let cs = str_chars(path);
    let k = first_non_slash(&cs);
    let mut r = String::new();
    push_char(&mut r, '/');
    let rest = string_from_chars(&cs, k, cs.len());
    r.append(rest.as_str());
    r
}

// ---------------------------------------------------------------------------
// Name ordering
// ---------------------------------------------------------------------------

/// Lexicographic order on names by code point; it is the order of `String`'s
/// `Ord`, since UTF-8 preserves code point order.
pub open spec fn name_lt(a: Seq<char>, b: Seq<char>) -> bool
    decreases a.len(),
{
    if a.len() == 0 {
        b.len() > 0
    } else if b.len() == 0 {
        false
    } else if a[0] != b[0] {
        (a[0] as int) < (b[0] as int)
    } else {
        name_lt(a.drop_first(), b.drop_first())
    }
}

/// `name_lt` is irreflexive.
pub proof fn lemma_name_lt_irreflexive(a: Seq<char>)
    ensures
        !name_lt(a, a),
    decreases a.len(),
{
    if a.len() > 0 {
        lemma_name_lt_irreflexive(a.drop_first());
    }
}

/// `name_lt` is transitive.
pub proof fn lemma_name_lt_transitive(a: Seq<char>, b: Seq<char>, c: Seq<char>)
    requires
        name_lt(a, b),
        name_lt(b, c),
    ensures
        name_lt(a, c),
    decreases a.len(),
{
    if a.len() > 0 && b.len() > 0 && c.len() > 0 {
        if a[0] == b[0] && b[0] == c[0] {
            lemma_name_lt_transitive(a.drop_first(), b.drop_first(), c.drop_first());
        }
    }
}

/// Distinct names are ordered one way or the other.
pub proof fn lemma_name_lt_total(a: Seq<char>, b: Seq<char>)
    requires
        a != b,
    ensures
        name_lt(a, b) || name_lt(b, a),
    decreases a.len(),
{
    if a.len() > 0 && b.len() > 0 {
        if a[0] == b[0] {
            if a.drop_first() == b.drop_first() {
                assert(a =~= seq![a[0]] + a.drop_first());
                assert(b =~= seq![b[0]] + b.drop_first());
            }
            lemma_name_lt_total(a.drop_first(), b.drop_first());
        } else {
        }
    } else if a.len() == 0 && b.len() == 0 {
        assert(a =~= b);
    }
}

/// Whether `a` sorts before `b`.
pub fn chars_lt(a: &Vec<char>, b: &Vec<char>) -> (r: bool)
    ensures
        r == name_lt(a@, b@),
{
    let mut i: usize = 0;
    assert(a@.subrange(0, a@.len() as int) =~= a@);
    assert(b@.subrange(0, b@.len() as int) =~= b@);
    while i < a.len() && i < b.len() && a[i] == b[i]
        invariant
            i <= a@.len(),
            i <= b@.len(),
            name_lt(a@, b@) == name_lt(
                a@.subrange(i as int, a@.len() as int),
                b@.subrange(i as int, b@.len() as int),
            ),
        decreases a@.len() - i,
    {
        assert(a@.subrange(i as int, a@.len() as int).drop_first() =~= a@.subrange(
            i + 1,
            a@.len() as int,
        ));
        assert(b@.subrange(i as int, b@.len() as int).drop_first() =~= b@.subrange(
            i + 1,
            b@.len() as int,
        ));
        i = i + 1;
    }
    if i == a.len() {
        i < b.len()
    } else if i == b.len() {
        false
    } else {
        a[i] < b[i]
    }
}

} // verus!
