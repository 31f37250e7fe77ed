//! The offset-mapping patch engine.
//!
//! Every edit addresses the original base by byte offset, while the buffer
//! shrinks and grows. The engine keeps, beside the buffer, an offset map:
//! one group of original offsets per live buffer position. Initially
//! position `i` owns exactly `{i}`; inserted bytes get empty (sentinel)
//! groups; a removal replaces the groups of the deleted range by one group
//! holding their union, so offsets that pointed inside a deleted region
//! keep resolving to the boundary that survives it.

use vstd::prelude::*;

use crate::errors::AssuoError;
use crate::errors::PatchError;
use crate::errors::ResolutionError;
use crate::models::resolve_edit_model;
use crate::models::resolved_bytes;
use crate::models::AssuoFile;
use crate::models::AssuoPatch;
use crate::models::AssuoSource;
use crate::models::Direction;
use crate::models::DocModel;
use crate::models::EditModel;
use crate::models::ResolvedEdit;

verus! {

/// The set of original offsets a group's vector holds.
pub open spec fn offsets_in(g: Seq<usize>) -> Set<usize>
    decreases g.len(),
{
    if g.len() == 0 {
        Set::empty()
    } else {
        offsets_in(g.drop_last()).insert(g.last())
    }
}

/// The offset map that a vector of group vectors stands for.
pub open spec fn groups_view(gs: Seq<Vec<usize>>) -> Seq<Set<usize>> {
    gs.map_values(|g: Vec<usize>| offsets_in(g@))
}

/// The offset map at the start of a run: position `i` owns exactly `{i}`.
pub open spec fn initial_map(n: nat) -> Seq<Set<usize>> {
    Seq::new(n, |i: int| Set::empty().insert(i as usize))
}

/// The first buffer position whose group holds `spot`, if any.
pub open spec fn locate_spec(m: Seq<Set<usize>>, spot: usize) -> Option<int>
    decreases m.len(),
{
    if m.len() == 0 {
        None
    } else if m[0].contains(spot) {
        Some(0int)
    } else {
        match locate_spec(m.drop_first(), spot) {
            None => None,
            Some(p) => Some(p + 1),
        }
    }
}

/// The union of the offsets held by a run of groups.
pub open spec fn union_of(s: Seq<Set<usize>>) -> Set<usize>
    decreases s.len(),
{
    if s.len() == 0 {
        Set::empty()
    } else {
        s[0] + union_of(s.drop_first())
    }
}

/// The offset map after the `count` groups from `start` on are replaced
/// by one group holding their union.
pub open spec fn merge_removed(m: Seq<Set<usize>>, start: int, count: int) -> Seq<Set<usize>> {
    m.subrange(0, start) + seq![union_of(m.subrange(start, start + count))] + m.subrange(
        start + count,
        m.len() as int,
    )
}

/// A removal whose range starts at `start`, once the start is settled:
/// the range must lie inside the offset map and inside the buffer, else
/// the edit is out of bounds.
pub open spec fn remove_checked(
    buf: Seq<u8>,
    m: Seq<Set<usize>>,
    start: int,
    count: int,
    idx: usize,
    spot: usize,
) -> Result<(Seq<u8>, Seq<Set<usize>>), PatchError> {
    if start + count <= m.len() && start + count <= buf.len() {
        Ok(
            (
                buf.subrange(0, start) + buf.subrange(start + count, buf.len() as int),
                merge_removed(m, start, count),
            ),
        )
    } else {
        Err(PatchError::OutOfBounds { edit: idx, spot })
    }
}

/// One edit applied to the buffer and the offset map together. `idx` is
/// the edit's place in the document, carried into any error. An insert
/// splices the bytes and an equal run of sentinel groups at the located
/// position; a removal deletes its byte range and merges the range's
/// groups into one.
pub open spec fn step_spec(buf: Seq<u8>, m: Seq<Set<usize>>, e: ResolvedEdit, idx: usize) -> Result<
    (Seq<u8>, Seq<Set<usize>>),
    PatchError,
> {
    match e {
        ResolvedEdit::Insert { way, spot, bytes } => match locate_spec(m, spot) {
            None => Err(PatchError::OutOfBounds { edit: idx, spot }),
            Some(p) => {
                let at = if way is Post {
                    p + 1
                } else {
                    p
                };
                if at <= buf.len() {
                    Ok(
                        (
                            buf.subrange(0, at) + bytes + buf.subrange(at, buf.len() as int),
                            m.subrange(0, at) + Seq::new(bytes.len(), |_i: int| Set::empty())
                                + m.subrange(at, m.len() as int),
                        ),
                    )
                } else {
                    Err(PatchError::OutOfBounds { edit: idx, spot })
                }
            },
        },
        ResolvedEdit::Remove { way, spot, count } => match locate_spec(m, spot) {
            None => Err(PatchError::OutOfBounds { edit: idx, spot }),
            Some(p) => match way {
                Direction::Post => remove_checked(buf, m, p + 1, count as int, idx, spot),
                Direction::Pre => {
                    if count <= p {
                        remove_checked(buf, m, p - count, count as int, idx, spot)
                    } else {
                        Err(PatchError::Underflow { edit: idx, spot, count })
                    }
                },
            },
        },
    }
}

/// The edits applied in order, each to the state the previous one left.
/// `idx` numbers the first of them for error reporting.
pub open spec fn run_spec(
    buf: Seq<u8>,
    m: Seq<Set<usize>>,
    edits: Seq<ResolvedEdit>,
    idx: int,
) -> Result<Seq<u8>, PatchError>
    decreases edits.len(),
{
    if edits.len() == 0 {
        Ok(buf)
    } else {
        match step_spec(buf, m, edits[0], idx as usize) {
            Err(e) => Err(e),
            Ok(next) => run_spec(next.0, next.1, edits.drop_first(), idx + 1),
        }
    }
}

/// What applying a whole edit list to a base yields.
pub open spec fn apply_spec(base: Seq<u8>, edits: Seq<ResolvedEdit>) -> Result<
    Seq<u8>,
    PatchError,
> {
    run_spec(base, initial_map(base.len()), edits, 0)
}

/// The edits of a document, resolved to concrete bytes in order, stopping
/// at the first source that cannot be resolved.
pub open spec fn resolve_all_spec(ps: Seq<EditModel>) -> Result<Seq<ResolvedEdit>, ResolutionError>
    decreases ps.len(),
{
    if ps.len() == 0 {
        Ok(Seq::<ResolvedEdit>::empty())
    } else {
        match resolve_edit_model(ps[0]) {
            Err(e) => Err(e),
            Ok(r0) => match resolve_all_spec(ps.drop_first()) {
                Err(e) => Err(e),
                Ok(rest) => Ok(seq![r0] + rest),
            },
        }
    }
}

/// A document's edit list; an absent list means no edits.
pub open spec fn doc_edits(d: DocModel) -> Seq<EditModel> {
    match d.patch {
        Some(ps) => ps,
        None => Seq::<EditModel>::empty(),
    }
}

/// What a whole patch run yields for a document: the base resolved, then
/// every edit's source resolved, then the edits applied in order.
pub open spec fn do_patch_spec(d: DocModel) -> Result<Seq<u8>, AssuoError> {
    match resolved_bytes(d.source) {
        Err(e) => Err(AssuoError::Resolution(e)),
        Ok(base) => match resolve_all_spec(doc_edits(d)) {
            Err(e) => Err(AssuoError::Resolution(e)),
            Ok(edits) => match apply_spec(base, edits) {
                Ok(out) => Ok(out),
                Err(pe) => Err(AssuoError::Patch(pe)),
            },
        },
    }
}

/// The spot an edit addresses, whichever kind it is.
pub open spec fn edit_spot(e: ResolvedEdit) -> usize {
    match e {
        ResolvedEdit::Insert { spot, .. } => spot,
        ResolvedEdit::Remove { spot, .. } => spot,
    }
}

/// A group holds an offset exactly when its vector lists it.
pub proof fn lemma_offsets_in_contains(g: Seq<usize>, x: usize)
    ensures
        offsets_in(g).contains(x) <==> g.contains(x),
    decreases g.len(),
{
    if g.len() > 0 {
        lemma_offsets_in_contains(g.drop_last(), x);
        if g.contains(x) {
            let i = choose|i: int| 0 <= i < g.len() && g[i] == x;
            if i < g.len() - 1 {
                assert(g.drop_last()[i] == x);
            }
        }
        if g.drop_last().contains(x) {
            let i = choose|i: int| 0 <= i < g.drop_last().len() && g.drop_last()[i] == x;
            assert(g[i] == x);
        }
    }
}

/// Where the first group holding `spot` stands, that is what `locate_spec`
/// answers.
pub proof fn lemma_locate_at(m: Seq<Set<usize>>, spot: usize, p: int)
    requires
        0 <= p < m.len(),
        m[p].contains(spot),
        forall|j: int| 0 <= j < p ==> !m[j].contains(spot),
    ensures
        locate_spec(m, spot) == Some(p),
    decreases m.len(),
{
    if p > 0 {
        assert(!m[0].contains(spot));
        assert forall|j: int| 0 <= j < p - 1 implies !m.drop_first()[j].contains(spot) by {
            assert(m.drop_first()[j] == m[j + 1]);
        }
        assert(m.drop_first()[p - 1] == m[p]);
        lemma_locate_at(m.drop_first(), spot, p - 1);
    }
}

/// Where no group holds `spot`, `locate_spec` answers nothing.
pub proof fn lemma_locate_none(m: Seq<Set<usize>>, spot: usize)
    requires
        forall|j: int| 0 <= j < m.len() ==> !m[j].contains(spot),
    ensures
        locate_spec(m, spot) is None,
    decreases m.len(),
{
    if m.len() > 0 {
        assert forall|j: int| 0 <= j < m.drop_first().len() implies !m.drop_first()[j].contains(
            spot,
        ) by {
            assert(m.drop_first()[j] == m[j + 1]);
        }
        lemma_locate_none(m.drop_first(), spot);
    }
}

/// What `locate_spec`'s answer means: the position it names is the first
/// one whose group holds the spot, and no answer means no group holds it.
pub proof fn lemma_locate_props(m: Seq<Set<usize>>, spot: usize)
    ensures
        match locate_spec(m, spot) {
            Some(p) => 0 <= p < m.len() && m[p].contains(spot) && (forall|j: int|
                0 <= j < p ==> !m[j].contains(spot)),
            None => forall|j: int| 0 <= j < m.len() ==> !m[j].contains(spot),
        },
    decreases m.len(),
{
    if m.len() > 0 {
        lemma_locate_props(m.drop_first(), spot);
        if !m[0].contains(spot) {
            assert forall|j: int| 0 <= j < m.len() && m[j].contains(spot) implies exists|k: int|
                0 <= k < m.drop_first().len() && m.drop_first()[k].contains(spot) by {
                assert(m.drop_first()[j - 1] == m[j]);
            }
            match locate_spec(m.drop_first(), spot) {
                Some(p) => {
                    assert(m.drop_first()[p] == m[p + 1]);
                    assert forall|j: int| 0 <= j < p + 1 implies !m[j].contains(spot) by {
                        if j > 0 {
                            assert(m.drop_first()[j - 1] == m[j]);
                        }
                    }
                },
                None => {
                    assert forall|j: int| 0 <= j < m.len() implies !m[j].contains(spot) by {
                        if j > 0 {
                            assert(m.drop_first()[j - 1] == m[j]);
                        }
                    }
                },
            }
        }
    }
}

/// In the initial map, an offset below the length resolves to itself, and
/// any other offset resolves nowhere.
pub proof fn lemma_locate_initial(n: nat, spot: usize)
    requires
        n <= usize::MAX,
    ensures
        spot < n ==> locate_spec(initial_map(n), spot) == Some(spot as int),
        spot >= n ==> locate_spec(initial_map(n), spot) is None,
{
    let m = initial_map(n);
    if spot < n {
        assert(m[spot as int].contains(spot));
        assert forall|j: int| 0 <= j < spot as int implies !m[j].contains(spot) by {
            assert(m[j] == Set::empty().insert(j as usize));
        }
        lemma_locate_at(m, spot, spot as int);
    } else {
        assert forall|j: int| 0 <= j < m.len() implies !m[j].contains(spot) by {
            assert(m[j] == Set::empty().insert(j as usize));
        }
        lemma_locate_none(m, spot);
    }
}

/// A union of groups holds an offset exactly when one of them does.
pub proof fn lemma_union_of_contains(s: Seq<Set<usize>>, x: usize)
    ensures
        union_of(s).contains(x) <==> exists|j: int| 0 <= j < s.len() && s[j].contains(x),
    decreases s.len(),
{
    if s.len() > 0 {
        lemma_union_of_contains(s.drop_first(), x);
        if union_of(s).contains(x) {
            if s[0].contains(x) {
                assert(0 <= 0 < s.len() && s[0].contains(x));
            } else {
                let j = choose|j: int|
                    0 <= j < s.drop_first().len() && s.drop_first()[j].contains(x);
                assert(s[j + 1].contains(x));
            }
        }
        if exists|j: int| 0 <= j < s.len() && s[j].contains(x) {
            let j = choose|j: int| 0 <= j < s.len() && s[j].contains(x);
            if j > 0 {
                assert(s.drop_first()[j - 1].contains(x));
            }
        }
    }
}

/// Appending one more group to a run extends the union by that group.
pub proof fn lemma_union_of_push(s: Seq<Set<usize>>, t: Set<usize>)
    ensures
        union_of(s.push(t)) == union_of(s) + t,
    decreases s.len(),
{
    if s.len() == 0 {
        assert(s.push(t).drop_first() =~= Seq::<Set<usize>>::empty());
        assert(union_of(s.push(t)) == t + union_of(Seq::<Set<usize>>::empty()));
        assert(t + Set::<usize>::empty() =~= Set::<usize>::empty() + t);
    } else {
        assert(s.push(t).drop_first() =~= s.drop_first().push(t));
        lemma_union_of_push(s.drop_first(), t);
        assert(union_of(s.push(t)) == s[0] + union_of(s.drop_first().push(t)));
        assert(s[0] + (union_of(s.drop_first()) + t) =~= (s[0] + union_of(s.drop_first())) + t);
    }
}

/// With no edits, the base comes back unchanged.
pub proof fn lemma_apply_empty(base: Seq<u8>)
    ensures
        apply_spec(base, Seq::<ResolvedEdit>::empty()) == Ok::<Seq<u8>, PatchError>(base),
{
}

/// One insert on a fresh base lands exactly beside its spot: after the
/// spot for `Post`, before it for `Pre`.
pub proof fn lemma_single_insert(base: Seq<u8>, way: Direction, spot: usize, bytes: Seq<u8>)
    requires
        spot < base.len(),
        base.len() <= usize::MAX,
    ensures
        way is Post ==> apply_spec(base, seq![ResolvedEdit::Insert { way, spot, bytes }]) == Ok::<
            Seq<u8>,
            PatchError,
        >(base.subrange(0, spot + 1) + bytes + base.subrange(spot + 1, base.len() as int)),
        way is Pre ==> apply_spec(base, seq![ResolvedEdit::Insert { way, spot, bytes }]) == Ok::<
            Seq<u8>,
            PatchError,
        >(base.subrange(0, spot as int) + bytes + base.subrange(spot as int, base.len() as int)),
{
    reveal_with_fuel(run_spec, 2);
    lemma_locate_initial(base.len(), spot);
    let edits = seq![ResolvedEdit::Insert { way, spot, bytes }];
    assert(edits.drop_first() =~= Seq::<ResolvedEdit>::empty());
}

/// One removal on a fresh base deletes exactly the addressed range: the
/// `count` bytes after the spot for `Post`, the `count` bytes before it
/// for `Pre`.
pub proof fn lemma_single_remove(base: Seq<u8>, way: Direction, spot: usize, count: usize)
    requires
        spot < base.len(),
        base.len() <= usize::MAX,
        way is Post ==> spot + 1 + count <= base.len(),
        way is Pre ==> count <= spot,
    ensures
        way is Post ==> apply_spec(base, seq![ResolvedEdit::Remove { way, spot, count }]) == Ok::<
            Seq<u8>,
            PatchError,
        >(base.subrange(0, spot + 1) + base.subrange(spot + 1 + count, base.len() as int)),
        way is Pre ==> apply_spec(base, seq![ResolvedEdit::Remove { way, spot, count }]) == Ok::<
            Seq<u8>,
            PatchError,
        >(base.subrange(0, spot - count) + base.subrange(spot as int, base.len() as int)),
{
    reveal_with_fuel(run_spec, 2);
    lemma_locate_initial(base.len(), spot);
    let edits = seq![ResolvedEdit::Remove { way, spot, count }];
    assert(edits.drop_first() =~= Seq::<ResolvedEdit>::empty());
}

/// The merge invariant: after a removal replaces a range of groups by one
/// group holding their union, an offset that lived anywhere inside the
/// deleted range still resolves, namely to the position of the merged
/// boundary group.
pub proof fn lemma_remove_keeps_offsets(m: Seq<Set<usize>>, start: int, count: int, spot: usize)
    requires
        0 <= start,
        0 <= count,
        start + count <= m.len(),
        exists|j: int| start <= j < start + count && m[j].contains(spot),
        forall|j: int| 0 <= j < start ==> !m[j].contains(spot),
    ensures
        locate_spec(merge_removed(m, start, count), spot) == Some(start),
{
    let m2 = merge_removed(m, start, count);
    let removed = m.subrange(start, start + count);
    let j = choose|j: int| start <= j < start + count && m[j].contains(spot);
    assert(removed[j - start] == m[j]);
    lemma_union_of_contains(removed, spot);
    assert(m2[start] == union_of(removed));
    assert forall|k: int| 0 <= k < start implies !m2[k].contains(spot) by {
        assert(m2[k] == m[k]);
    }
    lemma_locate_at(m2, spot, start);
}

/// An edit whose spot was never a valid original offset fails with
/// `OutOfBounds`, and the run yields no output.
pub proof fn lemma_spot_out_of_bounds(base: Seq<u8>, e: ResolvedEdit)
    requires
        base.len() <= usize::MAX,
        edit_spot(e) >= base.len(),
    ensures
        apply_spec(base, seq![e]) == Err::<Seq<u8>, PatchError>(
            PatchError::OutOfBounds { edit: 0, spot: edit_spot(e) },
        ),
{
    lemma_locate_initial(base.len(), edit_spot(e));
}

/// Whether one group's vector lists `spot`.
fn group_contains(g: &Vec<usize>, spot: usize) -> (r: bool)
    ensures
        r == offsets_in(g@).contains(spot),
{
    proof {
        lemma_offsets_in_contains(g@, spot);
    }
    let mut i: usize = 0;
    while i < g.len()
        invariant
            i <= g@.len(),
            forall|j: int| 0 <= j < i ==> g@[j] != spot,
            offsets_in(g@).contains(spot) <==> g@.contains(spot),
        decreases g@.len() - i,
    {
        if g[i] == spot {
            proof {
                assert(g@[i as int] == spot);
            }
            return true;
        }
        i += 1;
    }
    false
}

/// The first buffer position whose group holds `spot`, as `locate_spec`
/// defines it.
fn locate(groups: &Vec<Vec<usize>>, spot: usize) -> (r: Option<usize>)
    ensures
        match r {
            Some(p) => locate_spec(groups_view(groups@), spot) == Some(p as int),
            None => locate_spec(groups_view(groups@), spot) is None,
        },
{
    let ghost m = groups_view(groups@);
    let mut i: usize = 0;
    while i < groups.len()
        invariant
            i <= groups@.len(),
            m == groups_view(groups@),
            forall|j: int| 0 <= j < i ==> !m[j].contains(spot),
        decreases groups@.len() - i,
    {
        if group_contains(&groups[i], spot) {
            proof {
                assert(m[i as int] == offsets_in(groups@[i as int]@));
                lemma_locate_at(m, spot, i as int);
            }
            return Some(i);
        }
        i += 1;
    }
    proof {
        lemma_locate_none(m, spot);
    }
    None
}

/// The buffer with `bytes` inserted at position `at`.
fn splice_insert_bytes(buf: Vec<u8>, at: usize, bytes: &Vec<u8>) -> (r: Vec<u8>)
    requires
        at <= buf@.len(),
    ensures
        r@ == buf@.subrange(0, at as int) + bytes@ + buf@.subrange(at as int, buf@.len() as int),
{
    let mut out: Vec<u8> = Vec::new();
    let mut i: usize = 0;
    while i < at
        invariant
            i <= at <= buf@.len(),
            out@ == buf@.subrange(0, i as int),
        decreases at - i,
    {
        out.push(buf[i]);
        proof {
            assert(buf@.subrange(0, i + 1) =~= buf@.subrange(0, i as int).push(buf@[i as int]));
        }
        i += 1;
    }
    let mut j: usize = 0;
    while j < bytes.len()
        invariant
            j <= bytes@.len(),
            at <= buf@.len(),
            out@ == buf@.subrange(0, at as int) + bytes@.subrange(0, j as int),
        decreases bytes@.len() - j,
    {
        out.push(bytes[j]);
        proof {
            assert(bytes@.subrange(0, j + 1) =~= bytes@.subrange(0, j as int).push(
                bytes@[j as int],
            ));
            assert(buf@.subrange(0, at as int) + bytes@.subrange(0, j + 1) =~= (buf@.subrange(
                0,
                at as int,
            ) + bytes@.subrange(0, j as int)).push(bytes@[j as int]));
        }
        j += 1;
    }
    proof {
        assert(bytes@.subrange(0, bytes@.len() as int) =~= bytes@);
    }
    let mut k: usize = at;
    while k < buf.len()
        invariant
            at <= k <= buf@.len(),
            out@ == buf@.subrange(0, at as int) + bytes@ + buf@.subrange(at as int, k as int),
        decreases buf@.len() - k,
    {
        out.push(buf[k]);
        proof {
            assert(buf@.subrange(at as int, k + 1) =~= buf@.subrange(at as int, k as int).push(
                buf@[k as int],
            ));
            assert(buf@.subrange(0, at as int) + bytes@ + buf@.subrange(at as int, k + 1) =~= (
            buf@.subrange(0, at as int) + bytes@ + buf@.subrange(at as int, k as int)).push(
                buf@[k as int],
            ));
        }
        k += 1;
    }
    out
}

/// Adding one offset to a group's vector adds exactly it to the group's
/// set.
pub proof fn lemma_offsets_in_push(g: Seq<usize>, x: usize)
    ensures
        offsets_in(g.push(x)) == offsets_in(g).insert(x),
{
    assert(g.push(x).drop_last() =~= g);
    assert(g.push(x).last() == x);
}

/// Appending one group's vector to the map appends its set to the map's
/// view.
pub proof fn lemma_groups_view_push(gs: Seq<Vec<usize>>, g: Vec<usize>)
    ensures
        groups_view(gs.push(g)) == groups_view(gs).push(offsets_in(g@)),
{
    assert(groups_view(gs.push(g)) =~= groups_view(gs).push(offsets_in(g@)));
}

/// The buffer with the `count` bytes from `start` on deleted.
fn splice_remove_bytes(buf: Vec<u8>, start: usize, count: usize) -> (r: Vec<u8>)
    requires
        start + count <= buf@.len(),
    ensures
        r@ == buf@.subrange(0, start as int) + buf@.subrange(start + count, buf@.len() as int),
{
    let buf_len = buf.len();
    let mut out: Vec<u8> = Vec::new();
    let mut i: usize = 0;
    while i < start
        invariant
            i <= start,
            start + count <= buf@.len(),
            out@ == buf@.subrange(0, i as int),
        decreases start - i,
    {
        out.push(buf[i]);
        proof {
            assert(buf@.subrange(0, i + 1) =~= buf@.subrange(0, i as int).push(buf@[i as int]));
        }
        i += 1;
    }
    let mut k: usize = start + count;
    while k < buf.len()
        invariant
            start + count <= k <= buf@.len(),
            out@ == buf@.subrange(0, start as int) + buf@.subrange(start + count, k as int),
        decreases buf@.len() - k,
    {
        out.push(buf[k]);
        proof {
            assert(buf@.subrange(start + count, k + 1) =~= buf@.subrange(
                start + count,
                k as int,
            ).push(buf@[k as int]));
            assert(buf@.subrange(0, start as int) + buf@.subrange(start + count, k + 1) =~= (
            buf@.subrange(0, start as int) + buf@.subrange(start + count, k as int)).push(
                buf@[k as int],
            ));
        }
        k += 1;
    }
    out
}

/// The offset map with `n` sentinel (empty) groups inserted at `at`: one
/// unaddressable group per newly inserted byte.
fn splice_insert_sentinels(groups: Vec<Vec<usize>>, at: usize, n: usize) -> (r: Vec<Vec<usize>>)
    requires
        at <= groups@.len(),
    ensures
        groups_view(r@) == groups_view(groups@).subrange(0, at as int) + Seq::new(
            n as nat,
            |_i: int| Set::<usize>::empty(),
        ) + groups_view(groups@).subrange(at as int, groups@.len() as int),
{
    let total = groups.len();
    let ghost orig = groups@;
    let mut rest = groups;
    let mut out: Vec<Vec<usize>> = Vec::new();
    let mut i: usize = 0;
    while i < at
        invariant
            i <= at <= orig.len(),
            out@ == orig.subrange(0, i as int),
            rest@ == orig.skip(i as int),
        decreases at - i,
    {
        let g = rest.remove(0);
        out.push(g);
        proof {
            assert(orig.subrange(0, i + 1) =~= orig.subrange(0, i as int).push(orig[i as int]));
            assert(orig.skip(i as int).remove(0) =~= orig.skip(i + 1));
        }
        i += 1;
    }
    proof {
        assert(groups_view(out@) =~= groups_view(orig).subrange(0, at as int));
        assert(groups_view(orig).subrange(0, at as int) + Seq::new(
            0nat,
            |_i: int| Set::<usize>::empty(),
        ) =~= groups_view(orig).subrange(0, at as int));
    }
    let mut k: usize = 0;
    while k < n
        invariant
            k <= n,
            at <= orig.len(),
            out@.len() == at + k,
            rest@ == orig.skip(at as int),
            groups_view(out@) == groups_view(orig).subrange(0, at as int) + Seq::new(
                k as nat,
                |_i: int| Set::<usize>::empty(),
            ),
        decreases n - k,
    {
        let ghost prev = out@;
        let g: Vec<usize> = Vec::new();
        let ghost gsnap = g;
        out.push(g);
        proof {
            lemma_groups_view_push(prev, gsnap);
            assert(offsets_in(gsnap@) == Set::<usize>::empty());
            assert(groups_view(prev).push(Set::<usize>::empty()) =~= groups_view(orig).subrange(
                0,
                at as int,
            ) + Seq::new((k + 1) as nat, |_i: int| Set::<usize>::empty()));
        }
        k += 1;
    }
    let mut t: usize = 0;
    let ghost tail_total = orig.len() - at;
    proof {
        assert(groups_view(orig).subrange(at as int, at as int) =~= Seq::<Set<usize>>::empty());
        assert(groups_view(out@) + Seq::<Set<usize>>::empty() =~= groups_view(out@));
    }
    while rest.len() > 0
        invariant
            0 <= t <= tail_total,
            at + tail_total == orig.len(),
            orig.len() <= usize::MAX,
            out@.len() == at + n + t,
            rest@ == orig.skip(at + t),
            groups_view(out@) == groups_view(orig).subrange(0, at as int) + Seq::new(
                n as nat,
                |_i: int| Set::<usize>::empty(),
            ) + groups_view(orig).subrange(at as int, at + t),
        decreases rest@.len(),
    {
        let ghost prev = out@;
        let g = rest.remove(0);
        let ghost gsnap = g;
        out.push(g);
        proof {
            assert(orig.skip(at + t).remove(0) =~= orig.skip(at + t + 1));
            assert(gsnap == orig[at + t]);
            lemma_groups_view_push(prev, gsnap);
            assert(offsets_in(gsnap@) == groups_view(orig)[at + t]);
            assert(groups_view(prev).push(groups_view(orig)[at + t]) =~= groups_view(
                orig,
            ).subrange(0, at as int) + Seq::new(n as nat, |_i: int| Set::<usize>::empty())
                + groups_view(orig).subrange(at as int, at + t + 1));
        }
        t += 1;
    }
    proof {
        assert(groups_view(orig).subrange(at as int, at + tail_total) =~= groups_view(
            orig,
        ).subrange(at as int, orig.len() as int));
    }
    out
}

/// One vector listing every offset held by the `count` groups from
/// `start` on: the union that the merged boundary group will hold.
fn collect_union(groups: &Vec<Vec<usize>>, start: usize, count: usize) -> (r: Vec<usize>)
    requires
        start + count <= groups@.len(),
    ensures
        offsets_in(r@) == union_of(groups_view(groups@).subrange(start as int, start + count)),
{
    let glen = groups.len();
    let ghost gv = groups_view(groups@);
    let mut merged: Vec<usize> = Vec::new();
    let mut k: usize = start;
    proof {
        assert(gv.subrange(start as int, start as int) =~= Seq::<Set<usize>>::empty());
    }
    while k < start + count
        invariant
            start <= k <= start + count,
            start + count <= groups@.len(),
            groups@.len() <= usize::MAX,
            gv == groups_view(groups@),
            offsets_in(merged@) == union_of(gv.subrange(start as int, k as int)),
        decreases start + count - k,
    {
        let mut j: usize = 0;
        let ghost before = offsets_in(merged@);
        let gk_len = groups[k].len();
        proof {
            assert(groups@[k as int]@.subrange(0, 0) =~= Seq::<usize>::empty());
            assert(before + Set::<usize>::empty() =~= before);
        }
        while j < groups[k].len()
            invariant
                start <= k < groups@.len(),
                start + count <= groups@.len(),
                groups@[k as int]@.len() <= usize::MAX,
                j <= groups@[k as int]@.len(),
                gv == groups_view(groups@),
                offsets_in(merged@) == before + offsets_in(
                    groups@[k as int]@.subrange(0, j as int),
                ),
            decreases groups@[k as int]@.len() - j,
        {
            let x = groups[k][j];
            let ghost mprev = merged@;
            merged.push(x);
            proof {
                let gk = groups@[k as int]@;
                lemma_offsets_in_push(mprev, x);
                assert(gk.subrange(0, j + 1) =~= gk.subrange(0, j as int).push(gk[j as int]));
                lemma_offsets_in_push(gk.subrange(0, j as int), x);
                assert((before + offsets_in(gk.subrange(0, j as int))).insert(x) =~= before
                    + offsets_in(gk.subrange(0, j as int)).insert(x));
            }
            j += 1;
        }
        proof {
            let gk = groups@[k as int]@;
            assert(gk.subrange(0, gk.len() as int) =~= gk);
            assert(gv.subrange(start as int, k + 1) =~= gv.subrange(start as int, k as int).push(
                gv[k as int],
            ));
            lemma_union_of_push(gv.subrange(start as int, k as int), gv[k as int]);
            assert(gv[k as int] == offsets_in(gk));
        }
        k += 1;
    }
    merged
}

/// The offset map with the `count` groups from `start` on replaced by the
/// single merged group.
fn replace_groups(groups: Vec<Vec<usize>>, start: usize, count: usize, merged: Vec<usize>) -> (r:
    Vec<Vec<usize>>)
    requires
        start + count <= groups@.len(),
    ensures
        groups_view(r@) == groups_view(groups@).subrange(0, start as int) + seq![
            offsets_in(merged@),
        ] + groups_view(groups@).subrange(start + count, groups@.len() as int),
{
    let total = groups.len();
    let ghost orig = groups@;
    let ghost mset = offsets_in(merged@);
    let mut rest = groups;
    let mut out: Vec<Vec<usize>> = Vec::new();
    let mut i: usize = 0;
    while i < start
        invariant
            i <= start,
            start + count <= orig.len(),
            out@ == orig.subrange(0, i as int),
            rest@ == orig.skip(i as int),
        decreases start - i,
    {
        let g = rest.remove(0);
        out.push(g);
        proof {
            assert(orig.subrange(0, i + 1) =~= orig.subrange(0, i as int).push(orig[i as int]));
            assert(orig.skip(i as int).remove(0) =~= orig.skip(i + 1));
        }
        i += 1;
    }
    let ghost prefix = out@;
    out.push(merged);
    proof {
        lemma_groups_view_push(prefix, merged);
        assert(groups_view(prefix) =~= groups_view(orig).subrange(0, start as int));
        assert(groups_view(out@) =~= groups_view(orig).subrange(0, start as int) + seq![mset]);
    }
    let mut d: usize = 0;
    while d < count
        invariant
            d <= count,
            start + count <= orig.len(),
            out@.len() == start + 1,
            groups_view(out@) == groups_view(orig).subrange(0, start as int) + seq![mset],
            rest@ == orig.skip(start + d),
        decreases count - d,
    {
        let _dropped = rest.remove(0);
        proof {
            assert(orig.skip(start + d).remove(0) =~= orig.skip(start + d + 1));
        }
        d += 1;
    }
    let mut t: usize = 0;
    let ghost tail_total = orig.len() - start - count;
    proof {
        assert(groups_view(orig).subrange(start + count, start + count) =~= Seq::<
            Set<usize>,
        >::empty());
        assert(groups_view(out@) + Seq::<Set<usize>>::empty() =~= groups_view(out@));
    }
    while rest.len() > 0
        invariant
            0 <= t <= tail_total,
            start + count + tail_total == orig.len(),
            orig.len() <= usize::MAX,
            out@.len() == start + 1 + t,
            rest@ == orig.skip(start + count + t),
            groups_view(out@) == groups_view(orig).subrange(0, start as int) + seq![mset]
                + groups_view(orig).subrange(start + count, start + count + t),
        decreases rest@.len(),
    {
        let ghost prev = out@;
        let g = rest.remove(0);
        let ghost gsnap = g;
        out.push(g);
        proof {
            assert(orig.skip(start + count + t).remove(0) =~= orig.skip(start + count + t + 1));
            assert(gsnap == orig[start + count + t]);
            lemma_groups_view_push(prev, gsnap);
            assert(offsets_in(gsnap@) == groups_view(orig)[start + count + t]);
            assert(groups_view(prev).push(groups_view(orig)[start + count + t]) =~= groups_view(
                orig,
            ).subrange(0, start as int) + seq![mset] + groups_view(orig).subrange(
                start + count,
                start + count + t + 1,
            ));
        }
        t += 1;
    }
    proof {
        assert(groups_view(orig).subrange(start + count, start + count + tail_total)
            =~= groups_view(orig).subrange(start + count, orig.len() as int));
    }
    out
}

/// The models of a list of edits whose sources are still declarative.
pub open spec fn edit_models(ps: Seq<AssuoPatch<AssuoSource>>) -> Seq<EditModel> {
    ps.map_values(|p: AssuoPatch<AssuoSource>| p.model())
}

/// The models of a list of edits whose sources are resolved bytes.
pub open spec fn resolved_models(ps: Seq<AssuoPatch<Vec<u8>>>) -> Seq<ResolvedEdit> {
    ps.map_values(|p: AssuoPatch<Vec<u8>>| p.resolved_model())
}

/// Apply the ordered edit list to the resolved base: exactly what
/// `apply_spec` states, all or nothing, with the first failing edit
/// reported and no output produced on failure.
#[verifier::loop_isolation(false)]
pub fn apply(base: Vec<u8>, edits: Vec<AssuoPatch<Vec<u8>>>) -> (r: Result<Vec<u8>, PatchError>)
    ensures
        match r {
            Ok(v) => apply_spec(base@, resolved_models(edits@)) == Ok::<Seq<u8>, PatchError>(v@),
            Err(e) => apply_spec(base@, resolved_models(edits@)) == Err::<Seq<u8>, PatchError>(e),
        },
{
    let ghost base0 = base@;
    let ghost edits0 = resolved_models(edits@);
    let base_len = base.len();
    let e_total = edits.len();
    let mut buffer = base;
    let mut groups: Vec<Vec<usize>> = Vec::new();
    let mut i: usize = 0;
    proof {
        assert(groups_view(groups@) =~= initial_map(0nat));
    }
    while i < base_len
        invariant
            i <= base_len,
            base_len == base0.len(),
            buffer@ == base0,
            groups@.len() == i,
            groups_view(groups@) == initial_map(i as nat),
        decreases base_len - i,
    {
        let ghost prev = groups@;
        let mut g: Vec<usize> = Vec::new();
        g.push(i);
        let ghost gsnap = g;
        groups.push(g);
        proof {
            lemma_groups_view_push(prev, gsnap);
            assert(gsnap@ =~= Seq::<usize>::empty().push(i));
            lemma_offsets_in_push(Seq::<usize>::empty(), i);
            assert(offsets_in(gsnap@) == Set::<usize>::empty().insert(i));
            assert(groups_view(prev).push(Set::<usize>::empty().insert(i)) =~= initial_map(
                (i + 1) as nat,
            ));
        }
        i += 1;
    }
    let mut rest = edits;
    let mut idx: usize = 0;
    while rest.len() > 0
        invariant
            edits0.len() <= usize::MAX,
            idx + resolved_models(rest@).len() == edits0.len(),
            run_spec(buffer@, groups_view(groups@), resolved_models(rest@), idx as int)
                == apply_spec(base0, edits0),
        decreases rest@.len(),
    {
        let ghost rem = resolved_models(rest@);
        let ghost bufold = buffer@;
        let ghost gvold = groups_view(groups@);
        let edit = rest.remove(0);
        proof {
            assert(resolved_models(rest@) =~= rem.drop_first());
            assert(rem[0] == edit.resolved_model());
        }
        match edit {
            AssuoPatch::Insert { way, spot, source } => {
                match locate(&groups, spot) {
                    None => {
                        proof {
                            assert(run_spec(bufold, gvold, rem, idx as int) == Err::<
                                Seq<u8>,
                                PatchError,
                            >(PatchError::OutOfBounds { edit: idx, spot }));
                        }
                        return Err(PatchError::OutOfBounds { edit: idx, spot });
                    },
                    Some(p) => {
                        let g_len = groups.len();
                        proof {
                            lemma_locate_props(gvold, spot);
                        }
                        let at = match way {
                            Direction::Pre => p,
                            Direction::Post => p + 1,
                        };
                        if at > buffer.len() {
                            proof {
                                assert(apply_spec(base0, edits0) == Err::<Seq<u8>, PatchError>(
                                    PatchError::OutOfBounds { edit: idx, spot },
                                ));
                            }
                            return Err(PatchError::OutOfBounds { edit: idx, spot });
                        }
                        let n = source.len();
                        buffer = splice_insert_bytes(buffer, at, &source);
                        groups = splice_insert_sentinels(groups, at, n);
                        proof {
                            assert(step_spec(bufold, gvold, rem[0], idx) == Ok::<
                                (Seq<u8>, Seq<Set<usize>>),
                                PatchError,
                            >((buffer@, groups_view(groups@))));
                            assert(run_spec(bufold, gvold, rem, idx as int) == run_spec(
                                buffer@,
                                groups_view(groups@),
                                rem.drop_first(),
                                idx + 1,
                            ));
                        }
                    },
                }
            },
            AssuoPatch::Remove { way, spot, count } => {
                match locate(&groups, spot) {
                    None => {
                        proof {
                            assert(run_spec(bufold, gvold, rem, idx as int) == Err::<
                                Seq<u8>,
                                PatchError,
                            >(PatchError::OutOfBounds { edit: idx, spot }));
                        }
                        return Err(PatchError::OutOfBounds { edit: idx, spot });
                    },
                    Some(p) => {
                        let g_len = groups.len();
                        proof {
                            lemma_locate_props(gvold, spot);
                        }
                        let start: usize = match way {
                            Direction::Post => p + 1,
                            Direction::Pre => {
                                if count > p {
                                    proof {
                                        assert(run_spec(bufold, gvold, rem, idx as int) == Err::<
                                            Seq<u8>,
                                            PatchError,
                                        >(PatchError::Underflow { edit: idx, spot, count }));
                                    }
                                    return Err(PatchError::Underflow { edit: idx, spot, count });
                                }
                                p - count
                            },
                        };
                        if count > g_len - start || start + count > buffer.len() {
                            proof {
                                assert(run_spec(bufold, gvold, rem, idx as int) == Err::<
                                    Seq<u8>,
                                    PatchError,
                                >(PatchError::OutOfBounds { edit: idx, spot }));
                            }
                            return Err(PatchError::OutOfBounds { edit: idx, spot });
                        }
                        let merged = collect_union(&groups, start, count);
                        groups = replace_groups(groups, start, count, merged);
                        buffer = splice_remove_bytes(buffer, start, count);
                        proof {
                            assert(groups_view(groups@) == merge_removed(
                                gvold,
                                start as int,
                                count as int,
                            ));
                            assert(step_spec(bufold, gvold, rem[0], idx) == Ok::<
                                (Seq<u8>, Seq<Set<usize>>),
                                PatchError,
                            >((buffer@, groups_view(groups@))));
                            assert(run_spec(bufold, gvold, rem, idx as int) == run_spec(
                                buffer@,
                                groups_view(groups@),
                                rem.drop_first(),
                                idx + 1,
                            ));
                        }
                    },
                }
            },
        }
        idx += 1;
    }
    proof {
        assert(resolved_models(rest@) =~= Seq::<ResolvedEdit>::empty());
    }
    Ok(buffer)
}

/// Run a whole patch document: resolve the base, resolve every edit's
/// source in document order, then apply the edits in order. The first
/// failure of any stage aborts the run with no output.
#[verifier::loop_isolation(false)]
pub fn do_patch(file: AssuoFile<AssuoSource>) -> (r: Result<Vec<u8>, AssuoError>)
    ensures
        match r {
            Ok(v) => do_patch_spec(file.model()) == Ok::<Seq<u8>, AssuoError>(v@),
            Err(e) => do_patch_spec(file.model()) == Err::<Seq<u8>, AssuoError>(e),
        },
{
    let ghost doc = file.model();
    let resolved_file = match file.resolve() {
        Ok(f) => f,
        Err(e) => {
            return Err(AssuoError::Resolution(e));
        },
    };
    let AssuoFile { source: base, patch } = resolved_file;
    let patches: Vec<AssuoPatch<AssuoSource>> = match patch {
        Some(ps) => ps,
        None => Vec::new(),
    };
    let ghost all = doc_edits(doc);
    let p_total = patches.len();
    proof {
        assert(edit_models(patches@) =~= all);
        assert(all.len() == p_total);
    }
    let mut rest = patches;
    let mut resolved: Vec<AssuoPatch<Vec<u8>>> = Vec::new();
    proof {
        assert(resolved_models(resolved@) =~= Seq::<ResolvedEdit>::empty());
    }
    while rest.len() > 0
        invariant
            all.len() <= usize::MAX,
            resolved@.len() + rest@.len() == all.len(),
            ({
                let done = resolved_models(resolved@);
                match resolve_all_spec(edit_models(rest@)) {
                    Ok(restres) => resolve_all_spec(all) == Ok::<Seq<ResolvedEdit>, ResolutionError>(
                        done + restres,
                    ),
                    Err(e) => resolve_all_spec(all) == Err::<Seq<ResolvedEdit>, ResolutionError>(e),
                }
            }),
        decreases rest@.len(),
    {
        let ghost todo = edit_models(rest@);
        let ghost done = resolved_models(resolved@);
        let p0 = rest.remove(0);
        proof {
            assert(edit_models(rest@) =~= todo.drop_first());
            assert(todo[0] == p0.model());
        }
        match p0.resolve() {
            Ok(rp) => {
                let ghost rme = rp.resolved_model();
                resolved.push(rp);
                proof {
                    assert(resolved_models(resolved@) =~= done.push(rme));
                    match resolve_all_spec(todo.drop_first()) {
                        Ok(r2) => {
                            assert(done + (seq![rme] + r2) =~= done.push(rme) + r2);
                        },
                        Err(_) => {},
                    }
                }
            },
            Err(e) => {
                proof {
                    assert(resolve_all_spec(todo) == Err::<Seq<ResolvedEdit>, ResolutionError>(e));
                }
                return Err(AssuoError::Resolution(e));
            },
        }
    }
    proof {
        assert(edit_models(rest@) =~= Seq::<EditModel>::empty());
        assert(resolved_models(resolved@) + Seq::<ResolvedEdit>::empty() =~= resolved_models(
            resolved@,
        ));
    }
    match apply(base, resolved) {
        Ok(v) => Ok(v),
        Err(pe) => Err(AssuoError::Patch(pe)),
    }
}

} // verus!
