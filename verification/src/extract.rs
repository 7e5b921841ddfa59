//! The archive extractor's path safety.
//!
//! Archive entries carry attacker-controlled names. Before an entry is
//! written, its name is split into components at separators of either
//! convention and normalized: empty components and `.` are dropped, `..`
//! steps back one accepted component, and a `..` with nothing left to step
//! back over rejects the entry. A rejected entry is skipped, never written.
//! The accepted target is therefore always the destination directory
//! extended by plain name components — extraction can never write outside
//! the destination, however many `..` components an entry smuggles in.
//!
//! Extraction itself is best-effort: a single unreadable or unwritable entry
//! is skipped and the rest of the archive is still extracted; only an
//! archive that cannot be opened at all is a hard failure.

use vstd::prelude::*;

use crate::paths::{is_sep, sep_byte, spec_join_path, sub_bytes, views_of, SLASH};

verus! {

/// Full stop.
pub const DOT: u8 = 46;

/// Extraction failed as a whole: the archive itself could not be read.
#[derive(Clone, Copy, PartialEq, Eq, Structural, Debug)]
pub enum ExtractError {
    ArchiveUnreadable,
}

/// The component `.`.
pub open spec fn is_cur_dir(c: Seq<u8>) -> bool {
    c == seq![DOT]
}

/// The component `..`.
pub open spec fn is_parent_dir(c: Seq<u8>) -> bool {
    c == seq![DOT, DOT]
}

/// A component holds no separator of either convention.
pub open spec fn sep_free(c: Seq<u8>) -> bool {
    forall|k: int| 0 <= k < c.len() ==> !is_sep(#[trigger] c[k])
}

/// A plain file or directory name: nonempty, not a dot component, and
/// without any separator inside.
pub open spec fn is_plain_name(c: Seq<u8>) -> bool {
    c.len() > 0 && !is_cur_dir(c) && !is_parent_dir(c) && sep_free(c)
}

/// An entry name split into components at separators of either convention.
pub open spec fn spec_split_components(p: Seq<u8>) -> Seq<Seq<u8>>
    decreases p.len(),
{
    if p.len() == 0 {
        seq![Seq::<u8>::empty()]
    } else if is_sep(p.first()) {
        seq![Seq::<u8>::empty()] + spec_split_components(p.drop_first())
    } else {
        let rest = spec_split_components(p.drop_first());
        seq![seq![p.first()] + rest.first()] + rest.drop_first()
    }
}

/// Splitting yields at least one component.
pub proof fn lemma_split_components_nonempty(p: Seq<u8>)
    ensures
        spec_split_components(p).len() >= 1,
    decreases p.len(),
{
    if p.len() > 0 {
        lemma_split_components_nonempty(p.drop_first());
    }
}

/// No split component holds a separator.
pub proof fn lemma_split_components_sep_free(p: Seq<u8>)
    ensures
        forall|i: int|
            0 <= i < spec_split_components(p).len() ==> sep_free(
                #[trigger] spec_split_components(p)[i],
            ),
    decreases p.len(),
{
    if p.len() == 0 {
    } else {
        lemma_split_components_sep_free(p.drop_first());
        let rest = spec_split_components(p.drop_first());
        if is_sep(p.first()) {
            assert forall|i: int| 0 <= i < spec_split_components(p).len() implies sep_free(
                #[trigger] spec_split_components(p)[i],
            ) by {
                if i > 0 {
                    assert(spec_split_components(p)[i] == rest[i - 1]);
                }
            }
        } else {
            lemma_split_components_nonempty(p.drop_first());
            assert forall|i: int| 0 <= i < spec_split_components(p).len() implies sep_free(
                #[trigger] spec_split_components(p)[i],
            ) by {
                if i == 0 {
                    assert(sep_free(rest[0]));
                    let c = seq![p.first()] + rest.first();
                    assert forall|k: int| 0 <= k < c.len() implies !is_sep(#[trigger] c[k]) by {
                        if k > 0 {
                            assert(c[k] == rest[0][k - 1]);
                        }
                    }
                } else {
                    assert(spec_split_components(p)[i] == rest[i]);
                }
            }
        }
    }
}

/// Normalize the components still to come against an already accepted
/// stack: `..` steps back one accepted component and rejects the entry when
/// nothing is left, empty components and `.` are dropped, every other
/// component is accepted.
pub open spec fn spec_norm_from(stack: Seq<Seq<u8>>, comps: Seq<Seq<u8>>) -> Option<Seq<Seq<u8>>>
    decreases comps.len(),
{
    if comps.len() == 0 {
        Some(stack)
    } else {
        let c = comps.first();
        if is_parent_dir(c) {
            if stack.len() == 0 {
                None
            } else {
                spec_norm_from(stack.drop_last(), comps.drop_first())
            }
        } else if c.len() == 0 || is_cur_dir(c) {
            spec_norm_from(stack, comps.drop_first())
        } else {
            spec_norm_from(stack.push(c), comps.drop_first())
        }
    }
}

/// An entry name normalized from an empty stack.
pub open spec fn spec_normalize(comps: Seq<Seq<u8>>) -> Option<Seq<Seq<u8>>> {
    spec_norm_from(Seq::empty(), comps)
}

/// The safe relative target of an archive entry, or `None` when the entry
/// must be skipped.
pub open spec fn spec_safe_entry(name: Seq<u8>) -> Option<Seq<Seq<u8>>> {
    spec_normalize(spec_split_components(name))
}

/// Normalization only ever accepts plain names: whatever survives is
/// nonempty, is neither dot component, and holds no separator.
pub proof fn lemma_norm_from_plain(stack: Seq<Seq<u8>>, comps: Seq<Seq<u8>>)
    requires
        forall|i: int| 0 <= i < stack.len() ==> is_plain_name(#[trigger] stack[i]),
        forall|i: int| 0 <= i < comps.len() ==> sep_free(#[trigger] comps[i]),
    ensures
        match spec_norm_from(stack, comps) {
            Some(r) => forall|i: int| 0 <= i < r.len() ==> is_plain_name(#[trigger] r[i]),
            None => true,
        },
    decreases comps.len(),
{
    if comps.len() == 0 {
    } else {
        let c = comps.first();
        assert(sep_free(c));
        assert(forall|i: int|
            0 <= i < comps.drop_first().len() ==> sep_free(#[trigger] comps.drop_first()[i]));
        if is_parent_dir(c) {
            if stack.len() > 0 {
                lemma_norm_from_plain(stack.drop_last(), comps.drop_first());
            }
        } else if c.len() == 0 || is_cur_dir(c) {
            lemma_norm_from_plain(stack, comps.drop_first());
        } else {
            assert(is_plain_name(c));
            lemma_norm_from_plain(stack.push(c), comps.drop_first());
        }
    }
}

/// The zip-slip guarantee, at the level of one entry name: whenever an
/// entry is accepted, its resolved target is the destination extended by
/// plain name components only — no `..`, no empty component, no separator
/// hidden inside a component — so the write stays inside the destination.
pub proof fn lemma_safe_entry_stays_inside(name: Seq<u8>)
    ensures
        match spec_safe_entry(name) {
            Some(comps) => forall|i: int| 0 <= i < comps.len() ==> is_plain_name(
                #[trigger] comps[i],
            ),
            None => true,
        },
{
    lemma_split_components_sep_free(name);
    lemma_norm_from_plain(Seq::empty(), spec_split_components(name));
}

/// A destination path extended by a list of components, one separator each.
pub open spec fn spec_join_components(dest: Seq<u8>, comps: Seq<Seq<u8>>) -> Seq<u8>
    decreases comps.len(),
{
    if comps.len() == 0 {
        dest
    } else {
        spec_join_components(spec_join_path(dest, comps.first()), comps.drop_first())
    }
}

/// The joined target begins with the destination path, byte for byte.
pub proof fn lemma_join_components_extends(dest: Seq<u8>, comps: Seq<Seq<u8>>)
    ensures
        spec_join_components(dest, comps).len() >= dest.len(),
        spec_join_components(dest, comps).take(dest.len() as int) == dest,
    decreases comps.len(),
{
    if comps.len() == 0 {
        assert(spec_join_components(dest, comps).take(dest.len() as int) =~= dest);
    } else {
        let d1 = spec_join_path(dest, comps.first());
        lemma_join_components_extends(d1, comps.drop_first());
        let j = spec_join_components(dest, comps);
        assert(j.take(d1.len() as int) == d1);
        assert(j.take(dest.len() as int) =~= d1.take(dest.len() as int));
        assert(d1.take(dest.len() as int) =~= dest);
    }
}

/// The zip-slip guarantee end to end, at the level of the written byte
/// path: whatever entry name the archive carries, an accepted entry's
/// target path begins with the destination directory byte for byte,
/// followed by a separator — extraction never writes outside the
/// destination.
pub proof fn lemma_entry_write_stays_inside(dest: Seq<u8>, name: Seq<u8>)
    ensures
        match spec_safe_entry(name) {
            Some(comps) => ({
                let target = spec_join_components(dest, comps);
                &&& target.len() >= dest.len()
                &&& target.take(dest.len() as int) == dest
                &&& comps.len() > 0 ==> target.len() > dest.len() && target[dest.len() as int]
                    == SLASH
            }),
            None => true,
        },
{
    if spec_safe_entry(name) is Some {
        let comps = spec_safe_entry(name)->0;
        lemma_join_components_extends(dest, comps);
        if comps.len() > 0 {
            let d1 = spec_join_path(dest, comps.first());
            lemma_join_components_extends(d1, comps.drop_first());
            let target = spec_join_components(dest, comps);
            assert(target.take(d1.len() as int) == d1);
            assert(target[dest.len() as int] == d1[dest.len() as int]);
            assert(d1[dest.len() as int] == SLASH);
        }
    }
}

/// Split an entry name into components at separators of either convention.
pub fn split_components(p: &Vec<u8>) -> (r: Vec<Vec<u8>>)
    ensures
        views_of(r@) == spec_split_components(p@),
{
    let ghost full = p@;
    let mut out: Vec<Vec<u8>> = Vec::new();
    let mut cur: Vec<u8> = Vec::new();
    let mut i: usize = 0;
    proof {
        lemma_split_components_nonempty(full);
        assert(full.skip(0) =~= full);
        assert(views_of(out@) + comp_glue(cur@, spec_split_components(full.skip(0)))
            =~~= spec_split_components(full));
    }
    while i < p.len()
        invariant
            i <= full.len(),
            p@ == full,
            spec_split_components(full) == views_of(out@) + comp_glue(
                cur@,
                spec_split_components(full.skip(i as int)),
            ),
        decreases full.len() - i,
    {
        let b = p[i];
        proof {
            let suffix = full.skip(i as int);
            assert(suffix.len() > 0);
            assert(suffix.first() == full[i as int]);
            assert(suffix.drop_first() =~= full.skip(i as int + 1));
            lemma_split_components_nonempty(full.skip(i as int + 1));
        }
        if sep_byte(b) {
            let ghost old_out = out@;
            let ghost old_cur = cur@;
            out.push(cur);
            cur = Vec::new();
            proof {
                let next = spec_split_components(full.skip(i as int + 1));
                assert(spec_split_components(full.skip(i as int)) =~~= seq![Seq::<u8>::empty()]
                    + next);
                assert(views_of(out@) + comp_glue(cur@, next) =~~= views_of(old_out) + comp_glue(
                    old_cur,
                    spec_split_components(full.skip(i as int)),
                ));
            }
        } else {
            let ghost old_cur = cur@;
            cur.push(b);
            proof {
                let next = spec_split_components(full.skip(i as int + 1));
                assert(spec_split_components(full.skip(i as int)) =~~= seq![seq![full[i as int]]
                    + next.first()] + next.drop_first());
                assert(comp_glue(old_cur, spec_split_components(full.skip(i as int)))
                    =~~= comp_glue(cur@, next));
            }
        }
        i = i + 1;
    }
    proof {
        assert(full.skip(i as int) =~= Seq::<u8>::empty());
        assert(spec_split_components(full.skip(i as int)) == seq![Seq::<u8>::empty()]);
    }
    let ghost old_out = out@;
    let ghost last = cur@;
    out.push(cur);
    proof {
        assert(comp_glue(last, seq![Seq::<u8>::empty()]) =~~= seq![last]);
        assert(views_of(out@) =~~= views_of(old_out) + seq![last]);
        assert(views_of(out@) =~~= spec_split_components(full));
    }
    out
}

/// The partly consumed entry name seen as components: the open component so
/// far, glued onto the components still to come.
spec fn comp_glue(cur: Seq<u8>, cs: Seq<Seq<u8>>) -> Seq<Seq<u8>>
    recommends
        cs.len() >= 1,
{
    seq![cur + cs.first()] + cs.drop_first()
}

/// Whether `c` is exactly the two-byte component `..`.
fn parent_dir_component(c: &Vec<u8>) -> (r: bool)
    ensures
        r == is_parent_dir(c@),
{
    if c.len() == 2 && c[0] == DOT && c[1] == DOT {
        proof {
            assert(c@ =~= seq![DOT, DOT]);
        }
        true
    } else {
        false
    }
}

/// Whether `c` is exactly the one-byte component `.`.
fn cur_dir_component(c: &Vec<u8>) -> (r: bool)
    ensures
        r == is_cur_dir(c@),
{
    if c.len() == 1 && c[0] == DOT {
        proof {
            assert(c@ =~= seq![DOT]);
        }
        true
    } else {
        false
    }
}

/// Normalize split components; `None` rejects the entry.
pub fn normalize_components(comps: &Vec<Vec<u8>>) -> (r: Option<Vec<Vec<u8>>>)
    ensures
        match r {
            Some(v) => spec_normalize(views_of(comps@)) == Some(views_of(v@)),
            None => spec_normalize(views_of(comps@)) is None,
        },
{
    let ghost all = views_of(comps@);
    let mut stack: Vec<Vec<u8>> = Vec::new();
    let mut i: usize = 0;
    proof {
        assert(all.skip(0) =~= all);
        assert(views_of(stack@) =~= Seq::<Seq<u8>>::empty());
    }
    while i < comps.len()
        invariant
            i <= comps@.len(),
            views_of(comps@) == all,
            all.len() == comps@.len(),
            spec_normalize(all) == spec_norm_from(views_of(stack@), all.skip(i as int)),
        decreases comps@.len() - i,
    {
        let ghost suffix = all.skip(i as int);
        let ghost old_stack = stack@;
        proof {
            assert(suffix.len() > 0);
            assert(suffix.first() == all[i as int]);
            assert(all[i as int] == comps@[i as int]@);
            assert(suffix.drop_first() =~= all.skip(i as int + 1));
        }
        let c = &comps[i];
        if parent_dir_component(c) {
            if stack.len() == 0 {
                proof {
                    assert(views_of(stack@).len() == 0);
                }
                return None;
            }
            stack.pop();
            proof {
                assert(views_of(old_stack).len() > 0);
                assert(views_of(stack@) =~~= views_of(old_stack).drop_last());
            }
        } else if c.len() == 0 || cur_dir_component(c) {
        } else {
            let copy = sub_bytes(c, 0, c.len());
            proof {
                assert(copy@ =~= c@);
            }
            stack.push(copy);
            proof {
                assert(views_of(stack@) =~~= views_of(old_stack).push(c@));
            }
        }
        i = i + 1;
    }
    proof {
        assert(all.skip(i as int) =~= Seq::<Seq<u8>>::empty());
    }
    Some(stack)
}

/// The safe relative target of one archive entry: its name split and
/// normalized. `None` means the entry escapes the destination and must be
/// skipped — this is the security decision of the extractor.
pub fn entry_target(name: &Vec<u8>) -> (r: Option<Vec<Vec<u8>>>)
    ensures
        match r {
            Some(v) => spec_safe_entry(name@) == Some(views_of(v@)),
            None => spec_safe_entry(name@) is None,
        },
{
    let comps = split_components(name);
    normalize_components(&comps)
}

/// Join the destination directory and a list of accepted components into
/// the byte path that the entry is written to.
pub fn join_components(dest: &Vec<u8>, comps: &Vec<Vec<u8>>) -> (r: Vec<u8>)
    ensures
        r@ == spec_join_components(dest@, views_of(comps@)),
{
    let ghost all = views_of(comps@);
    let mut r = sub_bytes(dest, 0, dest.len());
    let mut i: usize = 0;
    proof {
        assert(r@ =~= dest@);
        assert(all.skip(0) =~= all);
    }
    while i < comps.len()
        invariant
            i <= comps@.len(),
            views_of(comps@) == all,
            all.len() == comps@.len(),
            spec_join_components(dest@, all) == spec_join_components(r@, all.skip(i as int)),
        decreases comps@.len() - i,
    {
        let ghost suffix = all.skip(i as int);
        proof {
            assert(suffix.len() > 0);
            assert(suffix.first() == all[i as int]);
            assert(all[i as int] == comps@[i as int]@);
            assert(suffix.drop_first() =~= all.skip(i as int + 1));
        }
        r = crate::paths::join_path(&r, &comps[i]);
        i = i + 1;
    }
    proof {
        assert(all.skip(i as int) =~= Seq::<Seq<u8>>::empty());
    }
    r
}

/// The outcome of opening the archive itself: anything less than a readable
/// archive is the one hard failure of extraction; every later per-entry
/// failure is skipped, not raised.
pub fn archive_open_outcome(readable: bool) -> (r: Result<(), ExtractError>)
    ensures
        r is Ok <==> readable,
        !readable ==> r == Result::<(), ExtractError>::Err(ExtractError::ArchiveUnreadable),
{
    if readable {
        Ok(())
    } else {
        Err(ExtractError::ArchiveUnreadable)
    }
}

} // verus!
