use vstd::prelude::*;

use crate::record::{
    is_internal_name, project_spec, strip_spec, ClaimView, FieldView, PendingView, WinView,
};
use crate::resolver::{
    has_active_claim_spec, is_active_match, occurrences, pending_of, pending_spec,
};

verus! {

/// Win `w` names `addr` among its winners and no active claim correlates
/// with (its id, `addr`).
pub open spec fn is_pending_for(w: WinView, claims: Seq<ClaimView>, addr: Seq<char>) -> bool {
    w.winners.contains(addr) && !has_active_claim_spec(claims, w.id, addr)
}

proof fn lemma_occurrences_positive(s: Seq<Seq<char>>, x: Seq<char>)
    ensures
        occurrences(s, x) > 0 <==> s.contains(x),
    decreases s.len(),
{
    if s.len() > 0 {
        lemma_occurrences_positive(s.drop_last(), x);
        if s.drop_last().contains(x) {
            let j = choose|j: int| 0 <= j < s.drop_last().len() && s.drop_last()[j] == x;
            assert(s[j] == x);
        }
        if s.contains(x) && s.last() != x {
            let j = choose|j: int| 0 <= j < s.len() && s[j] == x;
            assert(s.drop_last()[j] == x);
        }
    }
}

/// A record is in the output exactly when it is the projection, for `addr`,
/// of some win that is pending for `addr`.
pub proof fn lemma_pending_contains(
    wins: Seq<WinView>,
    claims: Seq<ClaimView>,
    addr: Seq<char>,
    x: PendingView,
)
    ensures
        pending_spec(wins, claims, addr).contains(x) <==> exists|k: int|
            0 <= k < wins.len() && is_pending_for(#[trigger] wins[k], claims, addr) && x
                == project_spec(wins[k], addr),
    decreases wins.len(),
{
    if wins.len() > 0 {
        let pre = wins.drop_last();
        let last = wins.last();
        lemma_pending_contains(pre, claims, addr, x);
        lemma_occurrences_positive(last.winners, addr);
        let a = pending_spec(pre, claims, addr);
        let b = pending_of(last, claims, addr);
        assert(pending_spec(wins, claims, addr) == a + b);
        if (a + b).contains(x) {
            let j = choose|j: int| 0 <= j < (a + b).len() && (a + b)[j] == x;
            if j < a.len() {
                assert(a[j] == x);
                let k = choose|k: int|
                    0 <= k < pre.len() && is_pending_for(#[trigger] pre[k], claims, addr) && x
                        == project_spec(pre[k], addr);
                assert(wins[k] == pre[k]);
            } else {
                assert(b[j - a.len()] == x);
                assert(wins[wins.len() - 1] == last);
            }
        }
        if exists|k: int|
            0 <= k < wins.len() && is_pending_for(#[trigger] wins[k], claims, addr) && x
                == project_spec(wins[k], addr) {
            let k = choose|k: int|
                0 <= k < wins.len() && is_pending_for(#[trigger] wins[k], claims, addr) && x
                    == project_spec(wins[k], addr);
            if k < wins.len() - 1 {
                assert(pre[k] == wins[k]);
                let j = choose|j: int| 0 <= j < a.len() && a[j] == x;
                assert((a + b)[j] == x);
            } else {
                assert(b[0] == x);
                assert((a + b)[a.len() as int] == x);
            }
        }
    }
}

/// Inclusion: a win that names `addr` and has no active correlating claim
/// is in the output for `addr`, without its internal fields.
pub proof fn lemma_inclusion(wins: Seq<WinView>, claims: Seq<ClaimView>, addr: Seq<char>, k: int)
    requires
        0 <= k < wins.len(),
        wins[k].winners.contains(addr),
        !has_active_claim_spec(claims, wins[k].id, addr),
    ensures
        pending_spec(wins, claims, addr).contains(project_spec(wins[k], addr)),
{
    lemma_pending_contains(wins, claims, addr, project_spec(wins[k], addr));
}

/// Exclusion: when an active claim correlates with (`id`, `addr`), no record
/// of quest `id` is in the output for `addr`.
pub proof fn lemma_exclusion(wins: Seq<WinView>, claims: Seq<ClaimView>, addr: Seq<char>, id: Seq<char>)
    requires
        has_active_claim_spec(claims, id, addr),
    ensures
        forall|j: int|
            0 <= j < pending_spec(wins, claims, addr).len() ==> (#[trigger] pending_spec(
                wins,
                claims,
                addr,
            )[j]).id != id,
{
    let out = pending_spec(wins, claims, addr);
    assert forall|j: int| 0 <= j < out.len() implies (#[trigger] out[j]).id != id by {
        lemma_pending_contains(wins, claims, addr, out[j]);
        assert(out.contains(out[j]));
    }
}

proof fn lemma_same_active_same_pending(
    wins: Seq<WinView>,
    c1: Seq<ClaimView>,
    c2: Seq<ClaimView>,
    addr: Seq<char>,
)
    requires
        forall|id: Seq<char>|
            has_active_claim_spec(c1, id, addr) == #[trigger] has_active_claim_spec(c2, id, addr),
    ensures
        pending_spec(wins, c1, addr) == pending_spec(wins, c2, addr),
    decreases wins.len(),
{
    if wins.len() > 0 {
        lemma_same_active_same_pending(wins.drop_last(), c1, c2, addr);
        assert(has_active_claim_spec(c1, wins.last().id, addr) == has_active_claim_spec(
            c2,
            wins.last().id,
            addr,
        ));
    }
}

/// Supersession: adding a claim whose validity window is closed changes no
/// result; only an active claim excludes a win.
pub proof fn lemma_superseded_claim_excludes_nothing(
    wins: Seq<WinView>,
    claims: Seq<ClaimView>,
    addr: Seq<char>,
    c: ClaimView,
)
    requires
        c.to is Some,
    ensures
        pending_spec(wins, claims.push(c), addr) == pending_spec(wins, claims, addr),
{
    let pushed = claims.push(c);
    assert forall|id: Seq<char>|
        has_active_claim_spec(pushed, id, addr) == #[trigger] has_active_claim_spec(
            claims,
            id,
            addr,
        ) by {
        if has_active_claim_spec(pushed, id, addr) {
            let k = choose|k: int| 0 <= k < pushed.len() && is_active_match(#[trigger] pushed[k], id, addr);
            assert(k < claims.len());
            assert(claims[k] == pushed[k]);
        }
        if has_active_claim_spec(claims, id, addr) {
            let k = choose|k: int| 0 <= k < claims.len() && is_active_match(#[trigger] claims[k], id, addr);
            assert(pushed[k] == claims[k]);
        }
    }
    lemma_same_active_same_pending(wins, pushed, claims, addr);
}

proof fn lemma_strip_has_no_internal(s: Seq<FieldView>)
    ensures
        forall|i: int| 0 <= i < strip_spec(s).len() ==> !is_internal_name(#[trigger] strip_spec(s)[i].name),
    decreases s.len(),
{
    if s.len() > 0 {
        let pre = strip_spec(s.drop_last());
        lemma_strip_has_no_internal(s.drop_last());
        assert forall|i: int| 0 <= i < strip_spec(s).len() implies !is_internal_name(
            #[trigger] strip_spec(s)[i].name,
        ) by {
            if i < pre.len() {
                assert(strip_spec(s)[i] == pre[i]);
            }
        }
    }
}

/// Field hygiene: no record in the output holds an internal field.
pub proof fn lemma_no_internal_fields(wins: Seq<WinView>, claims: Seq<ClaimView>, addr: Seq<char>)
    ensures
        forall|j: int, i: int|
            0 <= j < pending_spec(wins, claims, addr).len() && 0 <= i < pending_spec(
                wins,
                claims,
                addr,
            )[j].extra.len() ==> !is_internal_name(
                #[trigger] pending_spec(wins, claims, addr)[j].extra[i].name,
            ),
{
    let out = pending_spec(wins, claims, addr);
    assert forall|j: int, i: int| 0 <= j < out.len() && 0 <= i < out[j].extra.len() implies !is_internal_name(
        #[trigger] out[j].extra[i].name,
    ) by {
        lemma_pending_contains(wins, claims, addr, out[j]);
        assert(out.contains(out[j]));
        let k = choose|k: int|
            0 <= k < wins.len() && is_pending_for(#[trigger] wins[k], claims, addr) && out[j]
                == project_spec(wins[k], addr);
        lemma_strip_has_no_internal(wins[k].extra);
    }
}

/// Idempotence: win and claim records that hold the same records, in any
/// order, give the same set of pending wins.
pub proof fn lemma_set_equal_results(
    w1: Seq<WinView>,
    c1: Seq<ClaimView>,
    w2: Seq<WinView>,
    c2: Seq<ClaimView>,
    addr: Seq<char>,
)
    requires
        w1.to_set() == w2.to_set(),
        c1.to_set() == c2.to_set(),
    ensures
        pending_spec(w1, c1, addr).to_set() == pending_spec(w2, c2, addr).to_set(),
{
    assert forall|id: Seq<char>|
        has_active_claim_spec(c1, id, addr) == #[trigger] has_active_claim_spec(c2, id, addr) by {
        if has_active_claim_spec(c1, id, addr) {
            let k = choose|k: int| 0 <= k < c1.len() && is_active_match(#[trigger] c1[k], id, addr);
            assert(c1.to_set().contains(c1[k]));
            assert(c2.contains(c1[k]));
        }
        if has_active_claim_spec(c2, id, addr) {
            let k = choose|k: int| 0 <= k < c2.len() && is_active_match(#[trigger] c2[k], id, addr);
            assert(c2.to_set().contains(c2[k]));
            assert(c1.contains(c2[k]));
        }
    }
    lemma_same_active_same_pending(w2, c1, c2, addr);
    let s1 = pending_spec(w1, c1, addr);
    let s2 = pending_spec(w2, c1, addr);
    assert forall|x: PendingView| s1.to_set().contains(x) <==> s2.to_set().contains(x) by {
        lemma_pending_contains(w1, c1, addr, x);
        lemma_pending_contains(w2, c1, addr, x);
        if s1.contains(x) {
            let k = choose|k: int|
                0 <= k < w1.len() && is_pending_for(#[trigger] w1[k], c1, addr) && x
                    == project_spec(w1[k], addr);
            assert(w1.to_set().contains(w1[k]));
            assert(w2.contains(w1[k]));
            let k2 = choose|k2: int| 0 <= k2 < w2.len() && w2[k2] == w1[k];
            assert(is_pending_for(w2[k2], c1, addr));
        }
        if s2.contains(x) {
            let k = choose|k: int|
                0 <= k < w2.len() && is_pending_for(#[trigger] w2[k], c1, addr) && x
                    == project_spec(w2[k], addr);
            assert(w2.to_set().contains(w2[k]));
            assert(w1.contains(w2[k]));
            let k1 = choose|k1: int| 0 <= k1 < w1.len() && w1[k1] == w2[k];
            assert(is_pending_for(w1[k1], c1, addr));
        }
    }
    assert(s1.to_set() =~= s2.to_set());
}

/// Unknown participant: when no win names `addr`, the output is empty.
pub proof fn lemma_unknown_participant(wins: Seq<WinView>, claims: Seq<ClaimView>, addr: Seq<char>)
    requires
        forall|k: int| 0 <= k < wins.len() ==> !(#[trigger] wins[k]).winners.contains(addr),
    ensures
        pending_spec(wins, claims, addr).len() == 0,
{
    let out = pending_spec(wins, claims, addr);
    if out.len() > 0 {
        lemma_pending_contains(wins, claims, addr, out[0]);
        assert(out.contains(out[0]));
    }
}

} // verus!
