//! The configuration patcher.
//!
//! The tunnel configuration is authored once but extracted to a machine- and
//! run-specific writable directory, so a baked-in credential path would be
//! wrong on every machine except the one that produced the bundle. The
//! patcher walks the configuration text line by line; every line holding a
//! `credential-file:` directive has its value replaced by the resolved
//! directory joined with the basename of the old value (only the filename
//! portion of the authored path is trusted). All other lines pass through
//! unchanged, in their original order.

use vstd::prelude::*;

use crate::paths::{
    append_bytes, basename, spec_basename, spec_trim_blanks, sub_bytes, trim_blanks, views_of,
    SLASH, SPACE,
};

verus! {

/// Line feed.
pub const NL: u8 = 10;

/// The bytes of the directive name `credential-file:`.
pub open spec fn spec_key() -> Seq<u8> {
    seq![99u8, 114u8, 101u8, 100u8, 101u8, 110u8, 116u8, 105u8, 97u8, 108u8, 45u8, 102u8, 105u8,
        108u8, 101u8, 58u8]
}

/// The directive name `credential-file:` as a byte vector.
fn key_bytes() -> (r: Vec<u8>)
    ensures
        r@ == spec_key(),
{
    let mut r: Vec<u8> = Vec::new();
    r.push(99);
    r.push(114);
    r.push(101);
    r.push(100);
    r.push(101);
    r.push(110);
    r.push(116);
    r.push(105);
    r.push(97);
    r.push(108);
    r.push(45);
    r.push(102);
    r.push(105);
    r.push(108);
    r.push(101);
    r.push(58);
    proof {
        assert(r@ =~= spec_key());
    }
    r
}

/// The directive name occurs in `l` at position `i`.
pub open spec fn key_at(l: Seq<u8>, i: int) -> bool {
    &&& 0 <= i
    &&& i + 16 <= l.len()
    &&& forall|k: int| 0 <= k < 16 ==> #[trigger] l[i + k] == spec_key()[k]
}

/// Some line position carries the directive name.
pub open spec fn spec_has_key(l: Seq<u8>) -> bool {
    exists|i: int| key_at(l, i)
}

/// `i` is the first position at which the directive name occurs.
pub open spec fn is_first_key(l: Seq<u8>, i: int) -> bool {
    key_at(l, i) && forall|j: int| 0 <= j < i ==> !key_at(l, j)
}

/// The first position at which the directive name occurs.
pub open spec fn spec_first_key(l: Seq<u8>) -> int {
    choose|i: int| is_first_key(l, i)
}

/// Wherever the directive name occurs, a first occurrence exists.
pub proof fn lemma_first_key_exists(l: Seq<u8>, i: int)
    requires
        key_at(l, i),
    ensures
        is_first_key(l, spec_first_key(l)),
    decreases i,
{
    if forall|j: int| 0 <= j < i ==> !key_at(l, j) {
        assert(is_first_key(l, i));
    } else {
        let j = choose|j: int| 0 <= j < i && key_at(l, j);
        lemma_first_key_exists(l, j);
    }
}

/// The first occurrence is unique.
pub proof fn lemma_first_key_unique(l: Seq<u8>, a: int, b: int)
    requires
        is_first_key(l, a),
        is_first_key(l, b),
    ensures
        a == b,
{
    if a < b {
        assert(!key_at(l, a));
    }
    if b < a {
        assert(!key_at(l, b));
    }
}

/// Whether the directive name occurs in `line` starting at `i`.
fn key_matches_at(line: &Vec<u8>, i: usize) -> (r: bool)
    requires
        i + 16 <= line@.len(),
    ensures
        r == key_at(line@, i as int),
{
    // Binding the length teaches the verifier that the line fits in memory,
    // so the index arithmetic below cannot overflow.
    let n = line.len();
    let key = key_bytes();
    let mut k: usize = 0;
    while k < 16
        invariant
            k <= 16,
            key@ == spec_key(),
            i + 16 <= line@.len() <= usize::MAX,
            forall|m: int| 0 <= m < k ==> #[trigger] line@[i + m] == spec_key()[m],
        decreases 16 - k,
    {
        if line[i + k] != key[k] {
            return false;
        }
        k = k + 1;
    }
    true
}

/// The first position of the directive name in `line`, if it occurs.
fn find_key(line: &Vec<u8>) -> (r: Option<usize>)
    ensures
        match r {
            Some(i) => is_first_key(line@, i as int),
            None => !spec_has_key(line@),
        },
{
    if line.len() < 16 {
        return None;
    }
    let last_start = line.len() - 16;
    let mut i: usize = 0;
    while i <= last_start
        invariant
            i <= last_start + 1,
            last_start + 16 == line@.len(),
            line@.len() <= usize::MAX,
            forall|j: int| 0 <= j < i ==> !key_at(line@, j),
        decreases last_start - i + 1,
    {
        if key_matches_at(line, i) {
            return Some(i);
        }
        i = i + 1;
    }
    assert forall|j: int| !key_at(line@, j) by {
        if 0 <= j <= last_start {
            assert(!key_at(line@, j));
        }
    }
    None
}

/// One line after patching: a line holding the directive keeps everything up
/// to and including the directive name and gets a blank, the resolved
/// directory, a `/`, and the basename of its old trimmed value; any other
/// line is unchanged.
pub open spec fn spec_patch_line(l: Seq<u8>, dir: Seq<u8>) -> Seq<u8> {
    if spec_has_key(l) {
        let i = spec_first_key(l);
        l.take(i + 16) + seq![SPACE] + dir + seq![SLASH] + spec_basename(
            spec_trim_blanks(l.skip(i + 16)),
        )
    } else {
        l
    }
}

/// Patch one configuration line.
pub fn patch_line(line: &Vec<u8>, dir: &Vec<u8>) -> (r: Vec<u8>)
    ensures
        r@ == spec_patch_line(line@, dir@),
{
    match find_key(line) {
        None => {
            let mut r: Vec<u8> = Vec::new();
            append_bytes(&mut r, line);
            proof {
                assert(r@ =~= line@);
            }
            r
        }
        Some(i) => {
            proof {
                lemma_first_key_exists(line@, i as int);
                lemma_first_key_unique(line@, i as int, spec_first_key(line@));
            }
            // Binding the length teaches the verifier that the line fits in
            // memory, so `i + 16` cannot overflow.
            let n = line.len();
            assert(i + 16 <= n);
            let mut r = sub_bytes(line, 0, i + 16);
            r.push(SPACE);
            append_bytes(&mut r, dir);
            r.push(SLASH);
            let tail = sub_bytes(line, i + 16, line.len());
            let trimmed = trim_blanks(&tail);
            let base = basename(&trimmed);
            append_bytes(&mut r, &base);
            proof {
                assert(line@.take(i + 16) =~= line@.subrange(0, i + 16));
                assert(line@.skip(i + 16) =~= line@.subrange(i + 16, line@.len() as int));
                assert(r@ =~= spec_patch_line(line@, dir@));
            }
            r
        }
    }
}

/// A line that holds no directive passes through the patcher unchanged.
pub proof fn lemma_patch_line_without_directive(l: Seq<u8>, dir: Seq<u8>)
    ensures
        !spec_has_key(l) ==> spec_patch_line(l, dir) == l,
{
}

/// The text split at line feeds: always one line more than there are line
/// feeds, so empty text is one empty line.
pub open spec fn spec_split_lines(t: Seq<u8>) -> Seq<Seq<u8>>
    decreases t.len(),
{
    if t.len() == 0 {
        seq![Seq::<u8>::empty()]
    } else if t.first() == NL {
        seq![Seq::<u8>::empty()] + spec_split_lines(t.drop_first())
    } else {
        let rest = spec_split_lines(t.drop_first());
        seq![seq![t.first()] + rest.first()] + rest.drop_first()
    }
}

/// Splitting yields at least one line.
pub proof fn lemma_split_lines_nonempty(t: Seq<u8>)
    ensures
        spec_split_lines(t).len() >= 1,
    decreases t.len(),
{
    if t.len() > 0 {
        lemma_split_lines_nonempty(t.drop_first());
    }
}

/// The lines joined back with line feeds.
pub open spec fn spec_join_lines(ls: Seq<Seq<u8>>) -> Seq<u8>
    decreases ls.len(),
{
    if ls.len() == 0 {
        Seq::empty()
    } else if ls.len() == 1 {
        ls.first()
    } else {
        ls.first() + seq![NL] + spec_join_lines(ls.drop_first())
    }
}

/// Splitting at line feeds loses nothing: joining the lines back restores
/// the text byte for byte — the patcher's framing never disturbs content.
pub proof fn lemma_join_split_roundtrip(t: Seq<u8>)
    ensures
        spec_join_lines(spec_split_lines(t)) == t,
    decreases t.len(),
{
    if t.len() == 0 {
    } else {
        let rest = t.drop_first();
        lemma_join_split_roundtrip(rest);
        lemma_split_lines_nonempty(rest);
        let tail = spec_split_lines(rest);
        if t.first() == NL {
            let ls = seq![Seq::<u8>::empty()] + tail;
            assert(ls.first() == Seq::<u8>::empty());
            assert(ls.drop_first() =~= tail);
            assert(ls.len() >= 2);
            assert(spec_join_lines(ls) == Seq::<u8>::empty() + seq![NL] + spec_join_lines(tail));
            assert(Seq::<u8>::empty() + seq![NL] + rest =~= t);
        } else {
            let head = seq![t.first()] + tail.first();
            let ls = seq![head] + tail.drop_first();
            assert(ls.first() == head);
            if tail.len() == 1 {
                assert(ls.len() == 1);
                assert(spec_join_lines(tail) == tail.first());
                assert(spec_join_lines(ls) == head);
                assert(seq![t.first()] + rest =~= t);
            } else {
                assert(ls.drop_first() =~= tail.drop_first());
                assert(spec_join_lines(ls) == head + seq![NL] + spec_join_lines(tail.drop_first()));
                assert(spec_join_lines(tail) == tail.first() + seq![NL] + spec_join_lines(
                    tail.drop_first(),
                ));
                assert(head + seq![NL] + spec_join_lines(tail.drop_first()) =~= seq![t.first()]
                    + spec_join_lines(tail));
                assert(seq![t.first()] + rest =~= t);
            }
        }
    }
}

/// Every line after patching the whole list.
pub open spec fn spec_patch_lines(ls: Seq<Seq<u8>>, dir: Seq<u8>) -> Seq<Seq<u8>> {
    ls.map_values(|l: Seq<u8>| spec_patch_line(l, dir))
}

/// The whole configuration text after patching: split at line feeds, each
/// line patched, the lines joined back in order.
pub open spec fn spec_patch_text(t: Seq<u8>, dir: Seq<u8>) -> Seq<u8> {
    spec_join_lines(spec_patch_lines(spec_split_lines(t), dir))
}

/// Patching keeps the number of lines, keeps every line without the
/// directive byte-identical, and rewrites exactly the directive lines.
pub proof fn lemma_patch_lines_pointwise(ls: Seq<Seq<u8>>, dir: Seq<u8>)
    ensures
        spec_patch_lines(ls, dir).len() == ls.len(),
        forall|i: int|
            0 <= i < ls.len() && !spec_has_key(#[trigger] ls[i]) ==> spec_patch_lines(ls, dir)[i]
                == ls[i],
        forall|i: int|
            0 <= i < ls.len() ==> spec_patch_lines(ls, dir)[i] == spec_patch_line(
                #[trigger] ls[i],
                dir,
            ),
{
}

/// The partly consumed text seen as lines: the open line so far, glued onto
/// the lines still to come.
spec fn glue(cur: Seq<u8>, ls: Seq<Seq<u8>>) -> Seq<Seq<u8>>
    recommends
        ls.len() >= 1,
{
    seq![cur + ls.first()] + ls.drop_first()
}

/// Split a text at line feeds.
pub fn split_lines(text: &Vec<u8>) -> (r: Vec<Vec<u8>>)
    ensures
        views_of(r@) == spec_split_lines(text@),
{
    let ghost full = text@;
    let mut out: Vec<Vec<u8>> = Vec::new();
    let mut cur: Vec<u8> = Vec::new();
    let mut i: usize = 0;
    proof {
        lemma_split_lines_nonempty(full);
        assert(full.skip(0) =~= full);
        assert(views_of(out@) + glue(cur@, spec_split_lines(full.skip(0))) =~~= spec_split_lines(
            full,
        ));
    }
    while i < text.len()
        invariant
            i <= full.len(),
            text@ == full,
            spec_split_lines(full) == views_of(out@) + glue(
                cur@,
                spec_split_lines(full.skip(i as int)),
            ),
        decreases full.len() - i,
    {
        let b = text[i];
        proof {
            let suffix = full.skip(i as int);
            assert(suffix.len() > 0);
            assert(suffix.first() == full[i as int]);
            assert(suffix.drop_first() =~= full.skip(i as int + 1));
            lemma_split_lines_nonempty(full.skip(i as int + 1));
        }
        if b == NL {
            let ghost old_out = out@;
            let ghost old_cur = cur@;
            out.push(cur);
            cur = Vec::new();
            proof {
                let next = spec_split_lines(full.skip(i as int + 1));
                assert(spec_split_lines(full.skip(i as int)) =~~= seq![Seq::<u8>::empty()] + next);
                assert(views_of(out@) + glue(cur@, next) =~~= views_of(old_out) + glue(
                    old_cur,
                    spec_split_lines(full.skip(i as int)),
                ));
            }
        } else {
            let ghost old_cur = cur@;
            cur.push(b);
            proof {
                let next = spec_split_lines(full.skip(i as int + 1));
                assert(spec_split_lines(full.skip(i as int)) =~~= seq![seq![full[i as int]]
                    + next.first()] + next.drop_first());
                assert(glue(old_cur, spec_split_lines(full.skip(i as int))) =~~= glue(cur@, next));
            }
        }
        i = i + 1;
    }
    proof {
        assert(full.skip(i as int) =~= Seq::<u8>::empty());
        assert(spec_split_lines(full.skip(i as int)) == seq![Seq::<u8>::empty()]);
    }
    let ghost old_out = out@;
    let ghost last = cur@;
    out.push(cur);
    proof {
        assert(glue(last, seq![Seq::<u8>::empty()]) =~~= seq![last]);
        assert(views_of(out@) =~~= views_of(old_out) + seq![last]);
        assert(views_of(out@) =~~= spec_split_lines(full));
    }
    out
}

/// Join lines back with line feeds.
pub fn join_lines(lines: &Vec<Vec<u8>>) -> (r: Vec<u8>)
    ensures
        r@ == spec_join_lines(views_of(lines@)),
{
    let ghost dv = views_of(lines@);
    let mut r: Vec<u8> = Vec::new();
    let mut i: usize = 0;
    proof {
        assert(dv.skip(0) =~= dv);
    }
    while i < lines.len()
        invariant
            i <= dv.len(),
            views_of(lines@) == dv,
            dv.len() == lines@.len(),
            i < dv.len() ==> spec_join_lines(dv) == r@ + spec_join_lines(dv.skip(i as int)),
            i == dv.len() ==> spec_join_lines(dv) == r@,
        decreases dv.len() - i,
    {
        let ghost suffix = dv.skip(i as int);
        proof {
            assert(suffix.len() == dv.len() - i);
            assert(suffix.first() == dv[i as int]);
            assert(dv[i as int] == lines@[i as int]@);
            assert(suffix.drop_first() =~= dv.skip(i as int + 1));
        }
        append_bytes(&mut r, &lines[i]);
        if i + 1 < lines.len() {
            r.push(NL);
            proof {
                assert(spec_join_lines(suffix) == suffix.first() + seq![NL] + spec_join_lines(
                    suffix.drop_first(),
                ));
                assert(spec_join_lines(dv) =~= r@ + spec_join_lines(dv.skip(i as int + 1)));
            }
        } else {
            proof {
                assert(suffix.len() == 1);
                assert(spec_join_lines(suffix) == suffix.first());
                assert(spec_join_lines(dv) =~= r@);
            }
        }
        i = i + 1;
    }
    r
}

/// Patch a whole configuration text: every line holding a `credential-file:`
/// directive has its value replaced by `dir` joined with the basename of the
/// old value; every other line, and the line structure, is kept byte for
/// byte.
pub fn patch_config(text: &Vec<u8>, dir: &Vec<u8>) -> (r: Vec<u8>)
    ensures
        r@ == spec_patch_text(text@, dir@),
{
    let lines = split_lines(text);
    let ghost split = spec_split_lines(text@);
    let mut patched: Vec<Vec<u8>> = Vec::new();
    let mut i: usize = 0;
    proof {
        assert(views_of(patched@) =~~= split.take(0).map_values(
            |l: Seq<u8>| spec_patch_line(l, dir@),
        ));
    }
    while i < lines.len()
        invariant
            i <= lines@.len(),
            views_of(lines@) == split,
            split.len() == lines@.len(),
            views_of(patched@) == split.take(i as int).map_values(
                |l: Seq<u8>| spec_patch_line(l, dir@),
            ),
        decreases lines@.len() - i,
    {
        let ghost before = patched@;
        let p = patch_line(&lines[i], dir);
        patched.push(p);
        proof {
            assert(lines@[i as int]@ == split[i as int]);
            assert(views_of(patched@) =~~= views_of(before).push(
                spec_patch_line(split[i as int], dir@),
            ));
            assert(views_of(patched@) =~~= split.take(i as int + 1).map_values(
                |l: Seq<u8>| spec_patch_line(l, dir@),
            ));
        }
        i = i + 1;
    }
    proof {
        assert(split.take(split.len() as int) =~= split);
        assert(views_of(patched@) =~~= spec_patch_lines(split, dir@));
    }
    join_lines(&patched)
}

} // verus!
