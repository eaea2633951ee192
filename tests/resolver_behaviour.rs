use pending_claims::record::{is_internal_field, project, strip_internal_fields, ClaimRecord, Field, PendingWin, WinRecord};
use pending_claims::resolver::{has_active_claim, is_active, pending_claims, resolve, QueryError};

fn s(x: &str) -> String {
    x.to_string()
}

fn field(name: &str, value: &str) -> Field {
    Field { name: s(name), value: s(value) }
}

fn win(id: &str, winners: &[&str]) -> WinRecord {
    WinRecord {
        id: s(id),
        winners: winners.iter().map(|w| s(w)).collect(),
        hidden: false,
        extra: vec![],
    }
}

fn claim(id: &str, winner: &str, to: Option<&str>) -> ClaimRecord {
    ClaimRecord { id: s(id), winner: s(winner), to: to.map(s) }
}

fn pending(id: &str, winner: &str) -> PendingWin {
    PendingWin { id: s(id), winner: s(winner), extra: vec![] }
}

#[test]
fn unclaimed_win_is_pending() {
    let wins = vec![win("Q1", &["addrX"])];
    let r = pending_claims(&wins, &vec![], &s("addrX"));
    assert_eq!(r, vec![pending("Q1", "addrX")]);
}

#[test]
fn active_claim_excludes_win() {
    let wins = vec![win("Q2", &["addrX"])];
    let claims = vec![claim("Q2", "addrX", None)];
    let r = pending_claims(&wins, &claims, &s("addrX"));
    assert!(r.is_empty());
}

#[test]
fn superseded_claim_reopens_win() {
    let wins = vec![win("Q3", &["addrX"])];
    let claims = vec![claim("Q3", "addrX", Some("2024-01-01T00:00:00Z"))];
    let r = pending_claims(&wins, &claims, &s("addrX"));
    assert_eq!(r, vec![pending("Q3", "addrX")]);
}

#[test]
fn superseded_then_active_claim_excludes_win() {
    let wins = vec![win("Q3", &["addrX"])];
    let claims = vec![
        claim("Q3", "addrX", Some("2024-01-01T00:00:00Z")),
        claim("Q3", "addrX", None),
    ];
    assert!(pending_claims(&wins, &claims, &s("addrX")).is_empty());
}

#[test]
fn co_winners_are_independent_candidates() {
    let wins = vec![win("Q4", &["addrX", "addrY"])];
    assert_eq!(pending_claims(&wins, &vec![], &s("addrX")), vec![pending("Q4", "addrX")]);
    assert_eq!(pending_claims(&wins, &vec![], &s("addrY")), vec![pending("Q4", "addrY")]);
}

#[test]
fn claim_of_one_co_winner_leaves_the_other_pending() {
    let wins = vec![win("Q4", &["addrX", "addrY"])];
    let claims = vec![claim("Q4", "addrX", None)];
    assert!(pending_claims(&wins, &claims, &s("addrX")).is_empty());
    assert_eq!(pending_claims(&wins, &claims, &s("addrY")), vec![pending("Q4", "addrY")]);
}

#[test]
fn repeated_winner_entry_gives_one_record_each() {
    let wins = vec![win("Q5", &["addrX", "addrX"])];
    let r = pending_claims(&wins, &vec![], &s("addrX"));
    assert_eq!(r, vec![pending("Q5", "addrX"), pending("Q5", "addrX")]);
}

#[test]
fn claim_key_must_match_exactly() {
    let wins = vec![win("Q1", &["addrX"]), win("Q10", &["addrX"])];
    let claims = vec![claim("Q10", "addrX", None), claim("Q1", "addrXY", None)];
    let r = pending_claims(&wins, &claims, &s("addrX"));
    assert_eq!(r, vec![pending("Q1", "addrX")]);
}

#[test]
fn unknown_participant_gets_empty_result() {
    let wins = vec![win("Q1", &["addrX"]), win("Q4", &["addrX", "addrY"])];
    let r = resolve(Ok(wins.into_iter().map(Some).collect()), Ok(vec![]), &s("addrZ"));
    assert_eq!(r, Ok(vec![]));
}

#[test]
fn internal_fields_are_stripped() {
    let mut w = win("Q6", &["addrX"]);
    w.hidden = true;
    w.extra = vec![
        field("_id", "65a0"),
        field("name", "Boost"),
        field("hidden", "true"),
        field("boost_claims", "[]"),
        field("amount", "100"),
    ];
    let r = pending_claims(&vec![w], &vec![], &s("addrX"));
    assert_eq!(
        r,
        vec![PendingWin {
            id: s("Q6"),
            winner: s("addrX"),
            extra: vec![field("name", "Boost"), field("amount", "100")],
        }]
    );
}

#[test]
fn strip_keeps_order_of_public_fields() {
    let extra = vec![field("b", "2"), field("_id", "x"), field("a", "1")];
    assert_eq!(strip_internal_fields(&extra), vec![field("b", "2"), field("a", "1")]);
}

#[test]
fn project_narrows_to_the_winner() {
    let mut w = win("Q7", &["addrX", "addrY"]);
    w.extra = vec![field("hidden", "false"), field("token", "STRK")];
    assert_eq!(
        project(&w, &s("addrY")),
        PendingWin { id: s("Q7"), winner: s("addrY"), extra: vec![field("token", "STRK")] }
    );
}

#[test]
fn internal_field_names() {
    assert!(is_internal_field(&s("_id")));
    assert!(is_internal_field(&s("hidden")));
    assert!(is_internal_field(&s("boost_claims")));
    assert!(!is_internal_field(&s("id")));
    assert!(!is_internal_field(&s("_id_")));
    assert!(!is_internal_field(&s("")));
}

#[test]
fn active_claim_lookup() {
    let claims = vec![claim("Q1", "addrX", Some("t")), claim("Q2", "addrX", None)];
    assert!(is_active(&claims[1]));
    assert!(!is_active(&claims[0]));
    assert!(!has_active_claim(&claims, &s("Q1"), &s("addrX")));
    assert!(has_active_claim(&claims, &s("Q2"), &s("addrX")));
    assert!(!has_active_claim(&claims, &s("Q2"), &s("addrY")));
    assert!(!has_active_claim(&vec![], &s("Q2"), &s("addrX")));
}

#[test]
fn repeated_calls_give_equal_sets() {
    let wins = vec![win("Q1", &["addrX"]), win("Q2", &["addrX"]), win("Q3", &["addrX"])];
    let claims = vec![claim("Q2", "addrX", None), claim("Q3", "addrX", Some("t"))];
    let mut claims_reordered = claims.clone();
    claims_reordered.reverse();
    let mut wins_reordered = wins.clone();
    wins_reordered.reverse();
    let first = pending_claims(&wins, &claims, &s("addrX"));
    let second = pending_claims(&wins, &claims, &s("addrX"));
    assert_eq!(first, second);
    let mut third = pending_claims(&wins_reordered, &claims_reordered, &s("addrX"));
    third.reverse();
    assert_eq!(first, third);
    assert_eq!(first, vec![pending("Q1", "addrX"), pending("Q3", "addrX")]);
}

#[test]
fn store_failure_gives_query_error() {
    let r = resolve(Err(s("connection refused")), Ok(vec![]), &s("addrX"));
    assert_eq!(r, Err(QueryError { cause: s("connection refused") }));
    let wins = vec![Some(win("Q1", &["addrX"]))];
    let r = resolve(Ok(wins), Err(s("timed out")), &s("addrX"));
    assert_eq!(r, Err(QueryError { cause: s("timed out") }));
}

#[test]
fn undecodable_record_is_skipped() {
    let items = vec![Some(win("Q1", &["addrX"])), None, Some(win("Q2", &["addrX"]))];
    let claims = vec![claim("Q2", "addrX", None)];
    let r = resolve(Ok(items), Ok(claims), &s("addrX"));
    assert_eq!(r, Ok(vec![pending("Q1", "addrX")]));
}

#[test]
fn resolve_matches_pending_claims() {
    let wins = vec![win("Q1", &["addrX"]), win("Q4", &["addrX", "addrY"])];
    let claims = vec![claim("Q1", "addrX", Some("t"))];
    let direct = pending_claims(&wins, &claims, &s("addrX"));
    let streamed = resolve(Ok(wins.into_iter().map(Some).collect()), Ok(claims), &s("addrX"));
    assert_eq!(streamed, Ok(direct));
}
