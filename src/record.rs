use vstd::prelude::*;

verus! {

/// One field of a record's opaque metadata, its value kept as text.
#[derive(Clone, Debug, PartialEq, Eq)]
pub struct Field {
    pub name: String,
    pub value: String,
}

pub struct FieldView {
    pub name: Seq<char>,
    pub value: Seq<char>,
}

impl View for Field {
    type V = FieldView;

    open spec fn view(&self) -> FieldView {
        FieldView { name: self.name@, value: self.value@ }
    }
}

/// A quest-boost prize outcome as the store holds it.
#[derive(Clone, Debug, PartialEq, Eq)]
pub struct WinRecord {
    pub id: String,
    pub winners: Vec<String>,
    pub hidden: bool,
    pub extra: Vec<Field>,
}

pub struct WinView {
    pub id: Seq<char>,
    pub winners: Seq<Seq<char>>,
    pub hidden: bool,
    pub extra: Seq<FieldView>,
}

impl View for WinRecord {
    type V = WinView;

    open spec fn view(&self) -> WinView {
        WinView {
            id: self.id@,
            winners: self.winners@.map_values(|s: String| s@),
            hidden: self.hidden,
            extra: fields_view(self.extra@),
        }
    }
}

/// One version of a claim against a (quest id, winner) pair; `to` is the
/// closing marker of its validity window, unset while the version is active.
#[derive(Clone, Debug, PartialEq, Eq)]
pub struct ClaimRecord {
    pub id: String,
    pub winner: String,
    pub to: Option<String>,
}

pub struct ClaimView {
    pub id: Seq<char>,
    pub winner: Seq<char>,
    pub to: Option<Seq<char>>,
}

impl View for ClaimRecord {
    type V = ClaimView;

    open spec fn view(&self) -> ClaimView {
        ClaimView {
            id: self.id@,
            winner: self.winner@,
            to: match self.to {
                Some(t) => Some(t@),
                None => None,
            },
        }
    }
}

/// A win that is still pending for one winner: the win record with its
/// winners narrowed to that one and its internal fields removed.
#[derive(Clone, Debug, PartialEq, Eq)]
pub struct PendingWin {
    pub id: String,
    pub winner: String,
    pub extra: Vec<Field>,
}

pub struct PendingView {
    pub id: Seq<char>,
    pub winner: Seq<char>,
    pub extra: Seq<FieldView>,
}

impl View for PendingWin {
    type V = PendingView;

    open spec fn view(&self) -> PendingView {
        PendingView { id: self.id@, winner: self.winner@, extra: fields_view(self.extra@) }
    }
}

pub open spec fn fields_view(s: Seq<Field>) -> Seq<FieldView> {
    s.map_values(|f: Field| f@)
}

/// The store's identity field, the visibility flag and the join scratch
/// field: none of them is ever handed to a caller.
pub open spec fn is_internal_name(name: Seq<char>) -> bool {
    name == "_id"@ || name == "hidden"@ || name == "boost_claims"@
}

/// The fields of `s` that are not internal, in their order.
pub open spec fn strip_spec(s: Seq<FieldView>) -> Seq<FieldView>
    decreases s.len(),
{
    if s.len() == 0 {
        Seq::empty()
    } else if is_internal_name(s.last().name) {
        strip_spec(s.drop_last())
    } else {
        strip_spec(s.drop_last()).push(s.last())
    }
}

/// What a caller sees of win `w` as a candidate for `winner`.
pub open spec fn project_spec(w: WinView, winner: Seq<char>) -> PendingView {
    PendingView { id: w.id, winner, extra: strip_spec(w.extra) }
}

/// Whether `name` is one of the internal field names.
pub fn is_internal_field(name: &String) -> (r: bool)
    ensures
        r == is_internal_name(name@),
{
    let identity = "_id".to_owned();
    let hidden = "hidden".to_owned();
    let scratch = "boost_claims".to_owned();
    *name == identity || *name == hidden || *name == scratch
}

/// Copies the fields of `extra` that are not internal, keeping their order.
pub fn strip_internal_fields(extra: &Vec<Field>) -> (r: Vec<Field>)
    ensures
        fields_view(r@) == strip_spec(fields_view(extra@)),
{
    let mut out: Vec<Field> = Vec::new();
    let mut i: usize = 0;
    while i < extra.len()
        invariant
            i <= extra.len(),
            fields_view(out@) == strip_spec(fields_view(extra@).take(i as int)),
        decreases extra.len() - i,
    {
        let f = &extra[i];
        proof {
            assert(fields_view(extra@).take(i + 1).drop_last() =~= fields_view(extra@).take(
                i as int,
            ));
        }
        if !is_internal_field(&f.name) {
            let kept = Field { name: f.name.clone(), value: f.value.clone() };
            proof {
                assert(fields_view(out@.push(kept)) =~= fields_view(out@).push(kept@));
            }
            out.push(kept);
        }
        i += 1;
    }
    proof {
        assert(fields_view(extra@).take(extra.len() as int) =~= fields_view(extra@));
    }
    out
}

/// Win `w` as handed to a caller for `winner`: its id, that winner, and its
/// metadata without the internal fields.
pub fn project(w: &WinRecord, winner: &String) -> (r: PendingWin)
    ensures
        r@ == project_spec(w@, winner@),
{
    PendingWin { id: w.id.clone(), winner: winner.clone(), extra: strip_internal_fields(&w.extra) }
}

} // verus!
