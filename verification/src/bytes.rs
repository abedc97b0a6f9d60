//! Byte-sequence primitives the watchdog's rules are written over: literal
//! substring containment (a pattern match in a log line), stripping the
//! runtime's leading name separator, and splitting comma-separated values.
use vstd::prelude::*;

verus! {

/// The comma that separates values inside one configuration argument.
pub const COMMA: u8 = 44;

/// The separator the runtime prefixes to container names.
pub const SLASH: u8 = 47;

/// `pat` occupies `line[i .. i + pat.len()]`.
pub open spec fn matches_at(line: Seq<u8>, pat: Seq<u8>, i: int) -> bool {
    &&& 0 <= i
    &&& i + pat.len() <= line.len()
    &&& line.subrange(i, i + pat.len() as int) == pat
}

/// `pat` occurs somewhere in `line` as a contiguous run.
pub open spec fn contains_seq(line: Seq<u8>, pat: Seq<u8>) -> bool {
    exists|i: int| matches_at(line, pat, i)
}

/// Whether `pat` matches exactly at position `i` of `line`.
fn match_at(line: &[u8], pat: &[u8], i: usize) -> (r: bool)
    requires
        i + pat.len() <= line.len(),
    ensures
        r == matches_at(line@, pat@, i as int),
{
    let mut j: usize = 0;
    while j < pat.len()
        invariant
            i + pat.len() <= line.len(),
            j <= pat.len(),
            forall|k: int| 0 <= k < j ==> line@[i + k] == pat@[k],
        decreases pat.len() - j,
    {
        if line[i + j] != pat[j] {
            proof {
                assert(line@.subrange(i as int, i + pat@.len() as int)[j as int] == line@[i + j]);
            }
            return false;
        }
        j += 1;
    }
    proof {
        assert(line@.subrange(i as int, i + pat@.len() as int) =~= pat@);
    }
    true
}

/// Literal substring containment: does `line` contain `pat`?
pub fn contains_bytes(line: &[u8], pat: &[u8]) -> (r: bool)
    ensures
        r == contains_seq(line@, pat@),
{
    if pat.len() > line.len() {
        return false;
    }
    if pat.len() == 0 {
        proof {
            assert(line@.subrange(0, 0) =~= pat@);
            assert(matches_at(line@, pat@, 0));
        }
        return true;
    }
    let last = line.len() - pat.len();
    let mut i: usize = 0;
    while i <= last
        invariant
            1 <= pat@.len() <= line@.len() <= usize::MAX,
            last == line@.len() - pat@.len(),
            i <= last + 1,
            forall|k: int| 0 <= k < i ==> !matches_at(line@, pat@, k),
        decreases last + 1 - i,
    {
        if match_at(line, pat, i) {
            return true;
        }
        i += 1;
    }
    false
}

/// Byte-wise equality of two slices, stated over their views.
pub fn eq_bytes(a: &[u8], b: &[u8]) -> (r: bool)
    ensures
        r == (a@ == b@),
{
    if a.len() != b.len() {
        return false;
    }
    let mut i: usize = 0;
    while i < a.len()
        invariant
            a@.len() == b@.len(),
            i <= a@.len(),
            forall|k: int| 0 <= k < i ==> a@[k] == b@[k],
        decreases a@.len() - i,
    {
        if a[i] != b[i] {
            return false;
        }
        i += 1;
    }
    proof {
        assert(a@ =~= b@);
    }
    true
}

/// A copy of `s[from .. to]` as an owned vector.
pub fn copy_range(s: &[u8], from: usize, to: usize) -> (r: Vec<u8>)
    requires
        from <= to <= s@.len(),
    ensures
        r@ == s@.subrange(from as int, to as int),
{
    let mut r: Vec<u8> = Vec::new();
    let mut t: usize = from;
    while t < to
        invariant
            from <= t <= to <= s@.len(),
            r@ =~= s@.subrange(from as int, t as int),
        decreases to - t,
    {
        r.push(s[t]);
        proof {
            assert(r@ =~= s@.subrange(from as int, t + 1));
        }
        t += 1;
    }
    proof {
        assert(r@ =~= s@.subrange(from as int, to as int));
    }
    r
}

/// An owned copy of a byte vector, stated over the views.
pub fn clone_bytes(v: &Vec<u8>) -> (r: Vec<u8>)
    ensures
        r@ == v@,
{
    let r = copy_range(v.as_slice(), 0, v.len());
    proof {
        assert(v@.subrange(0, v@.len() as int) =~= v@);
    }
    r
}

/// `name` with every leading separator removed.
pub open spec fn strip_slashes(name: Seq<u8>) -> Seq<u8>
    decreases name.len(),
{
    if name.len() > 0 && name[0] == SLASH {
        strip_slashes(name.subrange(1, name.len() as int))
    } else {
        name
    }
}

proof fn lemma_strip_prefix(name: Seq<u8>, k: int)
    requires
        0 <= k <= name.len(),
        forall|j: int| 0 <= j < k ==> name[j] == SLASH,
        k == name.len() || name[k] != SLASH,
    ensures
        strip_slashes(name) == name.subrange(k, name.len() as int),
    decreases k,
{
    if k == 0 {
        assert(name.subrange(0, name.len() as int) =~= name);
    } else {
        let tail = name.subrange(1, name.len() as int);
        lemma_strip_prefix(tail, k - 1);
        assert(tail.subrange(k - 1, tail.len() as int) =~= name.subrange(k, name.len() as int));
    }
}

/// Normalization the Directory Resolver applies to a runtime-reported name:
/// the leading separators are stripped, nothing else changes.
pub fn normalize_name(name: &[u8]) -> (r: Vec<u8>)
    ensures
        r@ == strip_slashes(name@),
{
    let mut k: usize = 0;
    while k < name.len() && name[k] == SLASH
        invariant
            k <= name@.len(),
            forall|j: int| 0 <= j < k ==> name@[j] == SLASH,
        decreases name@.len() - k,
    {
        k += 1;
    }
    let r = copy_range(name, k, name.len());
    proof {
        lemma_strip_prefix(name@, k as int);
    }
    r
}

/// Index of the first occurrence of `sep` in `s`, or `s.len()` if none.
pub open spec fn find_first(s: Seq<u8>, sep: u8) -> int
    decreases s.len(),
{
    if s.len() == 0 {
        0
    } else if s[0] == sep {
        0
    } else {
        1 + find_first(s.subrange(1, s.len() as int), sep)
    }
}

proof fn lemma_find_first_at(s: Seq<u8>, sep: u8, i: int)
    requires
        0 <= i <= s.len(),
        forall|j: int| 0 <= j < i ==> s[j] != sep,
        i == s.len() || s[i] == sep,
    ensures
        find_first(s, sep) == i,
    decreases i,
{
    if i > 0 {
        let tail = s.subrange(1, s.len() as int);
        lemma_find_first_at(tail, sep, i - 1);
    }
}

/// The pieces of `s` between occurrences of `sep`: always at least one piece,
/// separators themselves never appear in any piece.
pub open spec fn split_on(s: Seq<u8>, sep: u8) -> Seq<Seq<u8>>
    decreases s.len(),
{
    let i = find_first(s, sep);
    if 0 <= i < s.len() {
        seq![s.subrange(0, i)] + split_on(s.subrange(i + 1, s.len() as int), sep)
    } else {
        seq![s]
    }
}

/// Splitting always yields at least one piece.
pub proof fn lemma_split_on_nonempty(s: Seq<u8>, sep: u8)
    ensures
        split_on(s, sep).len() >= 1,
{
}

/// The views of the elements of a vector of byte vectors.
pub open spec fn views_of(v: Seq<Vec<u8>>) -> Seq<Seq<u8>> {
    Seq::new(v.len(), |i: int| v[i]@)
}

/// Every piece is non-empty.
pub open spec fn all_pieces_nonempty(pieces: Seq<Seq<u8>>) -> bool {
    forall|i: int| 0 <= i < pieces.len() ==> pieces[i].len() > 0
}

/// Whether every byte vector in `v` is non-empty.
pub fn all_nonempty(v: &Vec<Vec<u8>>) -> (r: bool)
    ensures
        r == all_pieces_nonempty(views_of(v@)),
{
    let mut i: usize = 0;
    while i < v.len()
        invariant
            i <= v@.len(),
            forall|k: int| 0 <= k < i ==> views_of(v@)[k].len() > 0,
        decreases v@.len() - i,
    {
        if v[i].len() == 0 {
            proof {
                assert(views_of(v@)[i as int].len() == 0);
            }
            return false;
        }
        i += 1;
    }
    true
}

/// Splits `s` at every occurrence of `sep`.
pub fn split_bytes(s: &[u8], sep: u8) -> (r: Vec<Vec<u8>>)
    ensures
        views_of(r@) == split_on(s@, sep),
    decreases s@.len(),
{
    let mut i: usize = 0;
    while i < s.len() && s[i] != sep
        invariant
            i <= s@.len(),
            forall|j: int| 0 <= j < i ==> s@[j] != sep,
        decreases s@.len() - i,
    {
        i += 1;
    }
    proof {
        lemma_find_first_at(s@, sep, i as int);
    }
    if i == s.len() {
        let piece = copy_range(s, 0, s.len());
        let mut r: Vec<Vec<u8>> = Vec::new();
        r.push(piece);
        proof {
            assert(s@.subrange(0, s@.len() as int) =~= s@);
            assert(views_of(r@) =~= split_on(s@, sep));
        }
        r
    } else {
        let piece = copy_range(s, 0, i);
        let (_, tail) = s.split_at(i + 1);
        let mut rest = split_bytes(tail, sep);
        let ghost rest_views = views_of(rest@);
        let mut r: Vec<Vec<u8>> = Vec::new();
        r.push(piece);
        r.append(&mut rest);
        proof {
            assert(tail@ =~= s@.subrange(i + 1, s@.len() as int));
            assert(views_of(r@) =~= seq![s@.subrange(0, i as int)] + rest_views);
            assert(views_of(r@) =~= split_on(s@, sep));
        }
        r
    }
}

} // verus!
