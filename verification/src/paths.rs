//! Byte-level path helpers.
//!
//! Paths cross this library as plain byte strings. A configuration value may
//! use either separator convention (`/` or `\`), so both are recognized when
//! the basename of a path is taken; paths built by this library always use
//! `/`.

use vstd::prelude::*;

verus! {

/// Forward slash.
pub const SLASH: u8 = 47;

/// Backslash.
pub const BACKSLASH: u8 = 92;

/// Space.
pub const SPACE: u8 = 32;

/// Horizontal tab.
pub const TAB: u8 = 9;

/// A path separator of either convention.
pub open spec fn is_sep(c: u8) -> bool {
    c == SLASH || c == BACKSLASH
}

/// Executable counterpart of `is_sep`.
pub fn sep_byte(c: u8) -> (r: bool)
    ensures
        r == is_sep(c),
{
    c == SLASH || c == BACKSLASH
}

/// A blank byte: space or tab.
pub open spec fn is_blank(c: u8) -> bool {
    c == SPACE || c == TAB
}

/// Executable counterpart of `is_blank`.
pub fn blank_byte(c: u8) -> (r: bool)
    ensures
        r == is_blank(c),
{
    c == SPACE || c == TAB
}

/// The byte sequences held by a sequence of byte vectors.
pub open spec fn views_of(ls: Seq<Vec<u8>>) -> Seq<Seq<u8>> {
    ls.map_values(|v: Vec<u8>| v@)
}

/// The portion of a path after its last separator of either convention; the
/// whole path when it holds no separator, empty when it ends in one.
pub open spec fn spec_basename(p: Seq<u8>) -> Seq<u8>
    decreases p.len(),
{
    if p.len() == 0 {
        Seq::empty()
    } else if is_sep(p.last()) {
        Seq::empty()
    } else {
        spec_basename(p.drop_last()).push(p.last())
    }
}

/// `p` with leading blanks removed.
pub open spec fn spec_trim_blanks(p: Seq<u8>) -> Seq<u8>
    decreases p.len(),
{
    if p.len() > 0 && is_blank(p.first()) {
        spec_trim_blanks(p.drop_first())
    } else {
        p
    }
}

/// The basename is the suffix that begins right after the last separator.
pub proof fn lemma_basename_is_suffix(p: Seq<u8>, i: int)
    requires
        0 <= i <= p.len(),
        forall|k: int| i <= k < p.len() ==> !is_sep(#[trigger] p[k]),
        i > 0 ==> is_sep(p[i - 1]),
    ensures
        spec_basename(p) == p.subrange(i, p.len() as int),
    decreases p.len(),
{
    if i == p.len() {
        assert(spec_basename(p) =~= p.subrange(i, p.len() as int));
    } else {
        let q = p.drop_last();
        assert(forall|k: int| i <= k < q.len() ==> !is_sep(#[trigger] q[k]));
        lemma_basename_is_suffix(q, i);
        assert(spec_basename(p) == spec_basename(q).push(p.last()));
        assert(q.subrange(i, q.len() as int).push(p.last()) =~= p.subrange(i, p.len() as int));
    }
}

/// Trimming removes a prefix of blanks and nothing more.
pub proof fn lemma_trim_blanks_is_suffix(p: Seq<u8>, i: int)
    requires
        0 <= i <= p.len(),
        forall|k: int| 0 <= k < i ==> is_blank(#[trigger] p[k]),
        i < p.len() ==> !is_blank(p[i]),
    ensures
        spec_trim_blanks(p) == p.subrange(i, p.len() as int),
    decreases i,
{
    if i == 0 {
        assert(spec_trim_blanks(p) =~= p.subrange(0, p.len() as int));
    } else {
        let q = p.drop_first();
        assert(is_blank(p[0]));
        assert(spec_trim_blanks(p) == spec_trim_blanks(q));
        assert(forall|k: int| 0 <= k < i - 1 ==> is_blank(#[trigger] q[k]));
        lemma_trim_blanks_is_suffix(q, i - 1);
        assert(q.subrange(i - 1, q.len() as int) =~= p.subrange(i, p.len() as int));
    }
}

/// Append the bytes of `src` to `dst`.
pub fn append_bytes(dst: &mut Vec<u8>, src: &Vec<u8>)
    ensures
        final(dst)@ == old(dst)@ + src@,
{
    let mut j: usize = 0;
    while j < src.len()
        invariant
            j <= src@.len(),
            dst@ =~= old(dst)@ + src@.subrange(0, j as int),
        decreases src@.len() - j,
    {
        dst.push(src[j]);
        j = j + 1;
    }
    assert(dst@ =~= old(dst)@ + src@);
}

/// The bytes of `p` from `from` (inclusive) to `to` (exclusive).
pub fn sub_bytes(p: &Vec<u8>, from: usize, to: usize) -> (r: Vec<u8>)
    requires
        from <= to <= p@.len(),
    ensures
        r@ == p@.subrange(from as int, to as int),
{
    let mut r: Vec<u8> = Vec::new();
    let mut j: usize = from;
    while j < to
        invariant
            from <= j <= to <= p@.len(),
            r@ =~= p@.subrange(from as int, j as int),
        decreases to - j,
    {
        r.push(p[j]);
        j = j + 1;
    }
    r
}

/// The basename of `p`: everything after the last separator of either
/// convention.
pub fn basename(p: &Vec<u8>) -> (r: Vec<u8>)
    ensures
        r@ == spec_basename(p@),
{
    let mut i: usize = p.len();
    while i > 0 && !sep_byte(p[i - 1])
        invariant
            i <= p@.len(),
            forall|k: int| i <= k < p@.len() ==> !is_sep(#[trigger] p@[k]),
        decreases i,
    {
        i = i - 1;
    }
    proof {
        lemma_basename_is_suffix(p@, i as int);
    }
    sub_bytes(p, i, p.len())
}

/// `p` with leading spaces and tabs removed.
pub fn trim_blanks(p: &Vec<u8>) -> (r: Vec<u8>)
    ensures
        r@ == spec_trim_blanks(p@),
{
    let mut i: usize = 0;
    while i < p.len() && blank_byte(p[i])
        invariant
            i <= p@.len(),
            forall|k: int| 0 <= k < i ==> is_blank(#[trigger] p@[k]),
        decreases p@.len() - i,
    {
        i = i + 1;
    }
    proof {
        lemma_trim_blanks_is_suffix(p@, i as int);
    }
    sub_bytes(p, i, p.len())
}

/// `dir`, a single `/`, and `name`.
pub open spec fn spec_join_path(dir: Seq<u8>, name: Seq<u8>) -> Seq<u8> {
    dir + seq![SLASH] + name
}

/// Join a directory path and a file name with a `/`.
pub fn join_path(dir: &Vec<u8>, name: &Vec<u8>) -> (r: Vec<u8>)
    ensures
        r@ == spec_join_path(dir@, name@),
{
    let mut r: Vec<u8> = Vec::new();
    append_bytes(&mut r, dir);
    r.push(SLASH);
    append_bytes(&mut r, name);
    assert(r@ =~= spec_join_path(dir@, name@));
    r
}

} // verus!
