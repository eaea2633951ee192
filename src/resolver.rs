use vstd::prelude::*;

use crate::record::{project, project_spec, ClaimRecord, ClaimView, PendingView, PendingWin, WinRecord, WinView};

verus! {

pub open spec fn wins_view(s: Seq<WinRecord>) -> Seq<WinView> {
    s.map_values(|w: WinRecord| w@)
}

pub open spec fn claims_view(s: Seq<ClaimRecord>) -> Seq<ClaimView> {
    s.map_values(|c: ClaimRecord| c@)
}

pub open spec fn pendings_view(s: Seq<PendingWin>) -> Seq<PendingView> {
    s.map_values(|p: PendingWin| p@)
}

/// Claim `c` is the active version for the pair (`id`, `winner`): the key
/// matches exactly and the validity window is still open.
pub open spec fn is_active_match(c: ClaimView, id: Seq<char>, winner: Seq<char>) -> bool {
    &&& c.id == id
    &&& c.winner == winner
    &&& c.to is None
}

pub open spec fn has_active_claim_spec(
    claims: Seq<ClaimView>,
    id: Seq<char>,
    winner: Seq<char>,
) -> bool {
    exists|k: int| 0 <= k < claims.len() && is_active_match(#[trigger] claims[k], id, winner)
}

/// How many times `x` stands in `s`.
pub open spec fn occurrences(s: Seq<Seq<char>>, x: Seq<char>) -> nat
    decreases s.len(),
{
    if s.len() == 0 {
        0
    } else {
        occurrences(s.drop_last(), x) + if s.last() == x {
            1nat
        } else {
            0nat
        }
    }
}

/// Win `w` flattened to one candidate per winner entry and filtered on `addr`.
pub open spec fn candidates_spec(w: WinView, addr: Seq<char>) -> Seq<PendingView> {
    Seq::new(occurrences(w.winners, addr), |_i: int| project_spec(w, addr))
}

/// The candidates of `w` for `addr` that no active claim excludes.
pub open spec fn pending_of(w: WinView, claims: Seq<ClaimView>, addr: Seq<char>) -> Seq<
    PendingView,
> {
    if has_active_claim_spec(claims, w.id, addr) {
        Seq::empty()
    } else {
        candidates_spec(w, addr)
    }
}

/// The pending wins of `addr`, win by win in the order of `wins`.
pub open spec fn pending_spec(wins: Seq<WinView>, claims: Seq<ClaimView>, addr: Seq<char>) -> Seq<
    PendingView,
>
    decreases wins.len(),
{
    if wins.len() == 0 {
        Seq::empty()
    } else {
        pending_spec(wins.drop_last(), claims, addr) + pending_of(wins.last(), claims, addr)
    }
}

/// The records of a result stream that could be decoded, in stream order.
pub open spec fn decoded(items: Seq<Option<WinRecord>>) -> Seq<WinView>
    decreases items.len(),
{
    if items.len() == 0 {
        Seq::empty()
    } else {
        match items.last() {
            Some(w) => decoded(items.drop_last()).push(w@),
            None => decoded(items.drop_last()),
        }
    }
}

/// The store could not be reached or refused the query.
#[derive(Clone, Debug, PartialEq, Eq)]
pub struct QueryError {
    pub cause: String,
}

/// Whether claim `c` is the active version of its key.
pub fn is_active(c: &ClaimRecord) -> (r: bool)
    ensures
        r == (c@.to is None),
{
    c.to.is_none()
}

/// Whether some claim in `claims` is the active version for (`id`, `winner`).
pub fn has_active_claim(claims: &Vec<ClaimRecord>, id: &String, winner: &String) -> (r: bool)
    ensures
        r == has_active_claim_spec(claims_view(claims@), id@, winner@),
{
    let mut k: usize = 0;
    while k < claims.len()
        invariant
            k <= claims.len(),
            forall|m: int|
                0 <= m < k ==> !is_active_match(#[trigger] claims_view(claims@)[m], id@, winner@),
        decreases claims.len() - k,
    {
        let c = &claims[k];
        if c.id == *id && c.winner == *winner && is_active(c) {
            proof {
                assert(is_active_match(claims_view(claims@)[k as int], id@, winner@));
            }
            return true;
        }
        k += 1;
    }
    false
}

/// Appends to `out` the pending candidates of one win for `addr`.
fn append_pending(out: &mut Vec<PendingWin>, w: &WinRecord, claims: &Vec<ClaimRecord>, addr: &String)
    ensures
        pendings_view(final(out)@) == pendings_view(old(out)@) + pending_of(
            w@,
            claims_view(claims@),
            addr@,
        ),
{
    let ghost start = pendings_view(out@);
    if has_active_claim(claims, &w.id, addr) {
        proof {
            assert(start + pending_of(w@, claims_view(claims@), addr@) =~= start);
        }
        return;
    }
    let mut j: usize = 0;
    while j < w.winners.len()
        invariant
            j <= w.winners.len(),
            !has_active_claim_spec(claims_view(claims@), w@.id, addr@),
            pendings_view(out@) =~= start + Seq::new(
                occurrences(w@.winners.take(j as int), addr@),
                |_i: int| project_spec(w@, addr@),
            ),
        decreases w.winners.len() - j,
    {
        proof {
            assert(w@.winners.take(j + 1).drop_last() =~= w@.winners.take(j as int));
            assert(w@.winners.take(j + 1).last() == w.winners@[j as int]@);
        }
        if w.winners[j] == *addr {
            let p = project(w, addr);
            proof {
                assert(pendings_view(out@.push(p)) =~= pendings_view(out@).push(p@));
            }
            out.push(p);
        }
        j += 1;
    }
    proof {
        assert(w@.winners.take(w.winners.len() as int) =~= w@.winners);
    }
}

/// The wins of `wins` still pending for `addr`: one record per winner entry
/// equal to `addr`, for each win with no active claim on (its id, `addr`),
/// internal fields removed.
pub fn pending_claims(wins: &Vec<WinRecord>, claims: &Vec<ClaimRecord>, addr: &String) -> (r: Vec<
    PendingWin,
>)
    ensures
        pendings_view(r@) == pending_spec(wins_view(wins@), claims_view(claims@), addr@),
{
    let mut out: Vec<PendingWin> = Vec::new();
    let mut i: usize = 0;
    proof {
        assert(pendings_view(out@) =~= Seq::empty());
    }
    while i < wins.len()
        invariant
            i <= wins.len(),
            pendings_view(out@) == pending_spec(
                wins_view(wins@).take(i as int),
                claims_view(claims@),
                addr@,
            ),
        decreases wins.len() - i,
    {
        proof {
            assert(wins_view(wins@).take(i + 1).drop_last() =~= wins_view(wins@).take(i as int));
        }
        append_pending(&mut out, &wins[i], claims, addr);
        i += 1;
    }
    proof {
        assert(wins_view(wins@).take(wins.len() as int) =~= wins_view(wins@));
    }
    out
}

/// Resolves the pending wins of `addr` from what the store returned: the win
/// records matching `addr` as a stream in which a record that could not be
/// decoded is `None`, and the claim records. A failed fetch gives a
/// `QueryError` with its cause and no partial result; an undecodable record
/// is skipped.
pub fn resolve(
    wins: Result<Vec<Option<WinRecord>>, String>,
    claims: Result<Vec<ClaimRecord>, String>,
    addr: &String,
) -> (r: Result<Vec<PendingWin>, QueryError>)
    ensures
        match wins {
            Err(cause) => r == Err::<Vec<PendingWin>, QueryError>((QueryError { cause })),
            Ok(items) => match claims {
                Err(cause) => r == Err::<Vec<PendingWin>, QueryError>((QueryError { cause })),
                Ok(cs) => match r {
                    Ok(out) => pendings_view(out@) == pending_spec(
                        decoded(items@),
                        claims_view(cs@),
                        addr@,
                    ),
                    Err(_) => false,
                },
            },
        },
{
    let items = match wins {
        Err(cause) => {
            return Err(QueryError { cause });
        },
        Ok(items) => items,
    };
    let cs = match claims {
        Err(cause) => {
            return Err(QueryError { cause });
        },
        Ok(cs) => cs,
    };
    let mut out: Vec<PendingWin> = Vec::new();
    let mut i: usize = 0;
    proof {
        assert(pendings_view(out@) =~= Seq::empty());
    }
    while i < items.len()
        invariant
            i <= items.len(),
            pendings_view(out@) == pending_spec(
                decoded(items@.take(i as int)),
                claims_view(cs@),
                addr@,
            ),
        decreases items.len() - i,
    {
        proof {
            assert(items@.take(i + 1).drop_last() =~= items@.take(i as int));
        }
        match &items[i] {
            Some(w) => {
                proof {
                    let d = decoded(items@.take(i as int));
                    assert(d.push(w@).drop_last() =~= d);
                }
                append_pending(&mut out, w, &cs, addr);
            },
            None => {},
        }
        i += 1;
    }
    proof {
        assert(items@.take(items.len() as int) =~= items@);
    }
    Ok(out)
}

} // verus!
