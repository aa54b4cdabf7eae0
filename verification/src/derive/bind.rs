//! What a derived `parse` does with the scan: every recognized flag lands in
//! its field (later flags win, and `clears` resets rival flags), then the
//! operands fill the positionals in order and the rest goes to `Operands`.

use vstd::prelude::*;

use crate::derive::classify::RoleKind;
use crate::derive::plan::{slot_views, CommandPlan, Slot, SlotView};
use crate::error::{Error, ErrorView};
use crate::operands::Operands;
use crate::parse::{parsed_views, scan, spec_scan, str_views, Parsed, ParsedView, ScanResult};
use crate::polarity::{PolarVal, Polarity};
use crate::text::string_views;

verus! {

/// The value a field receives.
#[derive(Debug, Clone, PartialEq, Eq)]
pub enum FieldValue {
    /// A boolean flag.
    Bool(bool),
    /// A polarity flag.
    Polar(Polarity),
    /// A valued flag or an optional positional.
    Opt(Option<String>),
    /// A repeatable valued flag.
    List(Vec<String>),
    /// Accumulated polar values.
    PolarList(Vec<PolarVal>),
    /// A required positional.
    Str(String),
    /// The rest of the operands.
    Rest(Operands),
}

/// The content of a [`FieldValue`].
pub enum FieldValueView {
    Bool(bool),
    Polar(Polarity),
    Opt(Option<Seq<char>>),
    List(Seq<Seq<char>>),
    PolarList(Seq<(Polarity, Seq<char>)>),
    Str(Seq<char>),
    Rest(Seq<Seq<char>>),
}

/// The views of polar values.
pub open spec fn polar_views(v: Seq<PolarVal>) -> Seq<(Polarity, Seq<char>)> {
    v.map_values(|p: PolarVal| (p.polarity, p.value@))
}

impl View for FieldValue {
    type V = FieldValueView;

    open spec fn view(&self) -> FieldValueView {
        match self {
            FieldValue::Bool(b) => FieldValueView::Bool(*b),
            FieldValue::Polar(p) => FieldValueView::Polar(*p),
            FieldValue::Opt(o) => FieldValueView::Opt(
                match o {
                    Some(s) => Some(s@),
                    None => None,
                },
            ),
            FieldValue::List(l) => FieldValueView::List(string_views(l@)),
            FieldValue::PolarList(l) => FieldValueView::PolarList(polar_views(l@)),
            FieldValue::Str(s) => FieldValueView::Str(s@),
            FieldValue::Rest(o) => FieldValueView::Rest(o@),
        }
    }
}

/// The views of field values.
pub open spec fn value_views(v: Seq<FieldValue>) -> Seq<FieldValueView> {
    v.map_values(|x: FieldValue| x@)
}

/// What a field holds before any flag: `false`, `Unset`, `None` or empty.
pub open spec fn initial_value(k: RoleKind) -> FieldValueView {
    if k == RoleKind::BoolFlag {
        FieldValueView::Bool(false)
    } else if k == RoleKind::PolarityFlag {
        FieldValueView::Polar(Polarity::Unset)
    } else if k == RoleKind::ValuedFlag || k == RoleKind::OptionalPositional {
        FieldValueView::Opt(None)
    } else if k == RoleKind::RepeatableValueFlag {
        FieldValueView::List(seq![])
    } else if k == RoleKind::PolarValueFlag {
        FieldValueView::PolarList(seq![])
    } else if k == RoleKind::RequiredPositional {
        FieldValueView::Str(seq![])
    } else {
        FieldValueView::Rest(seq![])
    }
}

/// Every field at its initial value.
pub open spec fn initial_values(slots: Seq<SlotView>) -> Seq<FieldValueView> {
    Seq::new(slots.len(), |j: int| initial_value(slots[j].kind))
}

/// Whether the flag occurrence `p` belongs to the field of slot `s`.
pub open spec fn arm_matches(s: SlotView, p: ParsedView) -> bool {
    match p {
        ParsedView::Bool(c) => s.kind == RoleKind::BoolFlag && c == s.id,
        ParsedView::Polar(c, _) => s.kind == RoleKind::PolarityFlag && c == s.id,
        ParsedView::Value(c, _) => (s.kind == RoleKind::ValuedFlag || s.kind
            == RoleKind::RepeatableValueFlag) && c == s.id,
        ParsedView::PolarValue(c, _, _) => s.kind == RoleKind::PolarValueFlag && c == s.id,
    }
}

/// The first slot, at `k` or later, that `p` belongs to.
pub open spec fn first_arm_from(slots: Seq<SlotView>, p: ParsedView, k: int) -> Option<int>
    decreases slots.len() - k,
{
    if k < 0 || k >= slots.len() {
        None
    } else if arm_matches(slots[k], p) {
        Some(k)
    } else {
        first_arm_from(slots, p, k + 1)
    }
}

/// The value of a field of role `kind`, holding `v`, after the flag `p`:
/// booleans become `true`, polarities and single values are replaced, lists
/// grow by one.
pub open spec fn apply_flag(kind: RoleKind, v: FieldValueView, p: ParsedView) -> FieldValueView {
    match p {
        ParsedView::Bool(_) => FieldValueView::Bool(true),
        ParsedView::Polar(_, pol) => FieldValueView::Polar(pol),
        ParsedView::Value(_, val) => if kind == RoleKind::ValuedFlag {
            FieldValueView::Opt(Some(val))
        } else {
            match v {
                FieldValueView::List(l) => FieldValueView::List(l.push(val)),
                _ => FieldValueView::List(seq![val]),
            }
        },
        ParsedView::PolarValue(_, pol, val) => match v {
            FieldValueView::PolarList(l) => FieldValueView::PolarList(l.push((pol, val))),
            _ => FieldValueView::PolarList(seq![(pol, val)]),
        },
    }
}

/// `vals` with the fields `rs[m..]` put back to their initial values
/// (indices that name no field are passed over).
pub open spec fn apply_resets(
    slots: Seq<SlotView>,
    vals: Seq<FieldValueView>,
    rs: Seq<int>,
    m: int,
) -> Seq<FieldValueView>
    decreases rs.len() - m,
{
    if m < 0 || m >= rs.len() {
        vals
    } else if 0 <= rs[m] < vals.len() && rs[m] < slots.len() {
        apply_resets(slots, vals.update(rs[m], initial_value(slots[rs[m]].kind)), rs, m + 1)
    } else {
        apply_resets(slots, vals, rs, m + 1)
    }
}

/// The field values after one more flag occurrence: the first field it
/// belongs to takes it, then the fields that flag clears are reset.
pub open spec fn dispatch(slots: Seq<SlotView>, vals: Seq<FieldValueView>, p: ParsedView) -> Seq<
    FieldValueView,
> {
    match first_arm_from(slots, p, 0) {
        None => vals,
        Some(j) => apply_resets(
            slots,
            vals.update(j, apply_flag(slots[j].kind, vals[j], p)),
            slots[j].resets,
            0,
        ),
    }
}

/// The field values after the first `n` flag occurrences.
pub open spec fn dispatch_all(slots: Seq<SlotView>, flags: Seq<ParsedView>, n: int) -> Seq<
    FieldValueView,
>
    decreases n,
{
    if n <= 0 || n > flags.len() {
        initial_values(slots)
    } else {
        dispatch(slots, dispatch_all(slots, flags, n - 1), flags[n - 1])
    }
}

/// The field values once the positionals from slot `j` on take operands
/// from `idx` on: each optional or required positional takes the next
/// operand (a required one with none left is an error), `Operands` takes
/// all the operands left.
pub open spec fn place_operands(
    slots: Seq<SlotView>,
    vals: Seq<FieldValueView>,
    ops: Seq<Seq<char>>,
    j: int,
    idx: int,
) -> Result<Seq<FieldValueView>, ErrorView>
    decreases slots.len() - j,
{
    if j < 0 || j >= slots.len() {
        Ok(vals)
    } else {
        let k = slots[j].kind;
        if k == RoleKind::OptionalPositional {
            let v = if 0 <= idx < ops.len() {
                Some(ops[idx])
            } else {
                None
            };
            place_operands(slots, vals.update(j, FieldValueView::Opt(v)), ops, j + 1, idx + 1)
        } else if k == RoleKind::RequiredPositional {
            if 0 <= idx < ops.len() {
                place_operands(
                    slots,
                    vals.update(j, FieldValueView::Str(ops[idx])),
                    ops,
                    j + 1,
                    idx + 1,
                )
            } else {
                Err(ErrorView::MissingRequired(slots[j].ident))
            }
        } else if k == RoleKind::Rest {
            let rest = if 0 <= idx <= ops.len() {
                ops.subrange(idx, ops.len() as int)
            } else {
                seq![]
            };
            place_operands(slots, vals.update(j, FieldValueView::Rest(rest)), ops, j + 1, idx)
        } else {
            place_operands(slots, vals, ops, j + 1, idx)
        }
    }
}

/// The field values that the scanned `flags` and `ops` give.
pub open spec fn spec_bind(slots: Seq<SlotView>, flags: Seq<ParsedView>, ops: Seq<Seq<char>>) -> Result<
    Seq<FieldValueView>,
    ErrorView,
> {
    place_operands(slots, dispatch_all(slots, flags, flags.len() as int), ops, 0, 0)
}

/// What a derived `parse` returns for `args`: the scan's error, or the
/// field values bound from the scan.
pub open spec fn spec_parse_command(plan: CommandPlan, args: Seq<Seq<char>>) -> Result<
    Seq<FieldValueView>,
    ErrorView,
> {
    match spec_scan(plan.flags@, args, plan.def.on_unknown, plan.def.style, plan.permute) {
        Err(e) => Err(e),
        Ok((flags, ops)) => spec_bind(slot_views(plan.slots@), flags, ops),
    }
}


/// The value that the flag occurrence `p` gives a valued field: the field's
/// slot and the value, when `p` is a value and belongs to a field.
pub open spec fn occurrence_of(slots: Seq<SlotView>, p: ParsedView) -> Option<(int, Seq<char>)> {
    match p {
        ParsedView::Value(_, v) => match first_arm_from(slots, p, 0) {
            Some(j) => Some((j, v)),
            None => None,
        },
        _ => None,
    }
}

/// Every value that the first `n` flag occurrences give valued fields, in
/// the order they were given (values later replaced or cleared included).
pub open spec fn value_occurrences(slots: Seq<SlotView>, flags: Seq<ParsedView>, n: int) -> Seq<
    (int, Seq<char>),
>
    decreases n,
{
    if n <= 0 || n > flags.len() {
        seq![]
    } else {
        let prev = value_occurrences(slots, flags, n - 1);
        match occurrence_of(slots, flags[n - 1]) {
            Some(o) => prev.push(o),
            None => prev,
        }
    }
}

/// The views of slot-and-value pairs.
pub open spec fn occurrence_views(v: Seq<(usize, String)>) -> Seq<(int, Seq<char>)> {
    v.map_values(|o: (usize, String)| (o.0 as int, o.1@))
}

// ── Laws ────────────────────────────────────────────────────────

proof fn lemma_apply_resets_at(
    slots: Seq<SlotView>,
    vals: Seq<FieldValueView>,
    rs: Seq<int>,
    m: int,
    r: int,
)
    requires
        0 <= m,
        0 <= r < vals.len(),
        r < slots.len(),
    ensures
        apply_resets(slots, vals, rs, m).len() == vals.len(),
        apply_resets(slots, vals, rs, m)[r] == (if exists|t: int| m <= t < rs.len() && rs[t] == r {
            initial_value(slots[r].kind)
        } else {
            vals[r]
        }),
    decreases rs.len() - m,
{
    if m < rs.len() {
        let next = if 0 <= rs[m] < vals.len() && rs[m] < slots.len() {
            vals.update(rs[m], initial_value(slots[rs[m]].kind))
        } else {
            vals
        };
        lemma_apply_resets_at(slots, next, rs, m + 1, r);
        if rs[m] == r {
            assert(exists|t: int| m <= t < rs.len() && rs[t] == r);
        } else if exists|t: int| m <= t < rs.len() && rs[t] == r {
            let t = choose|t: int| m <= t < rs.len() && rs[t] == r;
            assert(m + 1 <= t);
        }
        if exists|t: int| m + 1 <= t < rs.len() && rs[t] == r {
            let t = choose|t: int| m + 1 <= t < rs.len() && rs[t] == r;
            assert(m <= t < rs.len() && rs[t] == r);
        }
    }
}

proof fn lemma_first_arm_found(slots: Seq<SlotView>, p: ParsedView, k: int)
    ensures
        first_arm_from(slots, p, k) matches Some(j) ==> 0 <= j < slots.len() && arm_matches(
            slots[j],
            p,
        ),
    decreases slots.len() - k,
{
    if 0 <= k < slots.len() && !arm_matches(slots[k], p) {
        lemma_first_arm_found(slots, p, k + 1);
    }
}

/// Last wins: when a flag is seen, the field it belongs to takes it (unless
/// the flag clears its own field), and every field it clears is back at its
/// initial value, whatever earlier flags had set.
pub proof fn lemma_dispatch_last_wins(
    slots: Seq<SlotView>,
    vals: Seq<FieldValueView>,
    p: ParsedView,
    j: int,
)
    requires
        vals.len() == slots.len(),
        first_arm_from(slots, p, 0) == Some(j),
    ensures
        dispatch(slots, vals, p).len() == vals.len(),
        !slots[j].resets.contains(j) ==> dispatch(slots, vals, p)[j] == apply_flag(
            slots[j].kind,
            vals[j],
            p,
        ),
        forall|t: int|
            0 <= t < slots[j].resets.len() && 0 <= #[trigger] slots[j].resets[t] < slots.len()
                ==> dispatch(slots, vals, p)[slots[j].resets[t]] == initial_value(
                slots[slots[j].resets[t]].kind,
            ),
{
    lemma_first_arm_found(slots, p, 0);
    let v1 = vals.update(j, apply_flag(slots[j].kind, vals[j], p));
    let rs = slots[j].resets;
    lemma_apply_resets_at(slots, v1, rs, 0, j);
    if !rs.contains(j) {
        assert(!(exists|t: int| 0 <= t < rs.len() && rs[t] == j));
    }
    assert forall|t: int|
        0 <= t < rs.len() && 0 <= #[trigger] rs[t] < slots.len() implies dispatch(
        slots,
        vals,
        p,
    )[rs[t]] == initial_value(slots[rs[t]].kind) by {
        lemma_apply_resets_at(slots, v1, rs, 0, rs[t]);
    }
}

/// Every `(polarity, value)` that the first `n` flag occurrences give the
/// field of slot `j`, in the order they were given.
pub open spec fn polar_occurrences(slots: Seq<SlotView>, flags: Seq<ParsedView>, j: int, n: int) -> Seq<
    (Polarity, Seq<char>),
>
    decreases n,
{
    if n <= 0 || n > flags.len() {
        seq![]
    } else {
        let prev = polar_occurrences(slots, flags, j, n - 1);
        match flags[n - 1] {
            ParsedView::PolarValue(_, pol, val) => if first_arm_from(slots, flags[n - 1], 0) == Some(
                j,
            ) {
                prev.push((pol, val))
            } else {
                prev
            },
            _ => prev,
        }
    }
}

/// Every value that the first `n` flag occurrences give the field of slot `j`,
/// in the order they were given.
pub open spec fn list_occurrences(slots: Seq<SlotView>, flags: Seq<ParsedView>, j: int, n: int) -> Seq<
    Seq<char>,
>
    decreases n,
{
    if n <= 0 || n > flags.len() {
        seq![]
    } else {
        let prev = list_occurrences(slots, flags, j, n - 1);
        match flags[n - 1] {
            ParsedView::Value(_, val) => if first_arm_from(slots, flags[n - 1], 0) == Some(j) {
                prev.push(val)
            } else {
                prev
            },
            _ => prev,
        }
    }
}

/// Whether no flag resets the field of slot `j`.
pub open spec fn never_reset(slots: Seq<SlotView>, j: int) -> bool {
    forall|k: int| 0 <= k < slots.len() ==> !(#[trigger] slots[k].resets).contains(j)
}

/// A flag that belongs to another field leaves field `j` alone when it does
/// not reset it.
proof fn lemma_dispatch_other(
    slots: Seq<SlotView>,
    vals: Seq<FieldValueView>,
    p: ParsedView,
    j: int,
)
    requires
        vals.len() == slots.len(),
        0 <= j < slots.len(),
        never_reset(slots, j),
        first_arm_from(slots, p, 0) != Some(j),
    ensures
        dispatch(slots, vals, p).len() == vals.len(),
        dispatch(slots, vals, p)[j] == vals[j],
{
    lemma_first_arm_found(slots, p, 0);
    match first_arm_from(slots, p, 0) {
        None => {},
        Some(k) => {
            let v1 = vals.update(k, apply_flag(slots[k].kind, vals[k], p));
            let rs = slots[k].resets;
            lemma_apply_resets_at(slots, v1, rs, 0, j);
            assert(!rs.contains(j));
            if exists|t: int| 0 <= t < rs.len() && rs[t] == j {
                let t = choose|t: int| 0 <= t < rs.len() && rs[t] == j;
                assert(rs.contains(j));
            }
        },
    }
}

/// Placing operands only touches positional and `Operands` fields.
proof fn lemma_place_keeps_flags(
    slots: Seq<SlotView>,
    vals: Seq<FieldValueView>,
    ops: Seq<Seq<char>>,
    j: int,
    idx: int,
    r: int,
)
    requires
        0 <= j,
        vals.len() == slots.len(),
        0 <= r < vals.len(),
        slots[r].kind != RoleKind::OptionalPositional,
        slots[r].kind != RoleKind::RequiredPositional,
        slots[r].kind != RoleKind::Rest,
    ensures
        place_operands(slots, vals, ops, j, idx) matches Ok(out) ==> out.len() == vals.len()
            && out[r] == vals[r],
    decreases slots.len() - j,
{
    if 0 <= j < slots.len() {
        let k = slots[j].kind;
        if k == RoleKind::OptionalPositional {
            let v = if 0 <= idx < ops.len() {
                Some(ops[idx])
            } else {
                None
            };
            lemma_place_keeps_flags(slots, vals.update(j, FieldValueView::Opt(v)), ops, j + 1, idx + 1, r);
        } else if k == RoleKind::RequiredPositional {
            if 0 <= idx < ops.len() {
                lemma_place_keeps_flags(
                    slots, vals.update(j, FieldValueView::Str(ops[idx])), ops, j + 1, idx + 1, r);
            }
        } else if k == RoleKind::Rest {
            let rest = if 0 <= idx <= ops.len() {
                ops.subrange(idx, ops.len() as int)
            } else {
                seq![]
            };
            lemma_place_keeps_flags(slots, vals.update(j, FieldValueView::Rest(rest)), ops, j + 1, idx, r);
        } else {
            lemma_place_keeps_flags(slots, vals, ops, j + 1, idx, r);
        }
    }
}

/// Bound values accumulate: in the fields that a scan binds to, a
/// `Vec<PolarVal>` field and a `Vec` valued field that no flag clears hold
/// every value their flag was given, in order.
pub proof fn lemma_bound_lists_accumulate(
    slots: Seq<SlotView>,
    flags: Seq<ParsedView>,
    ops: Seq<Seq<char>>,
    j: int,
)
    requires
        0 <= j < slots.len(),
        never_reset(slots, j),
    ensures
        slots[j].kind == RoleKind::PolarValueFlag ==> (spec_bind(slots, flags, ops) matches Ok(vals)
            ==> vals[j] == FieldValueView::PolarList(
            polar_occurrences(slots, flags, j, flags.len() as int),
        )),
        slots[j].kind == RoleKind::RepeatableValueFlag ==> (spec_bind(slots, flags, ops) matches Ok(
            vals,
        ) ==> vals[j] == FieldValueView::List(list_occurrences(slots, flags, j, flags.len() as int))),
{
    let n = flags.len() as int;
    if slots[j].kind == RoleKind::PolarValueFlag {
        lemma_polar_values_accumulate(slots, flags, j, n);
        lemma_place_keeps_flags(slots, dispatch_all(slots, flags, n), ops, 0, 0, j);
    }
    if slots[j].kind == RoleKind::RepeatableValueFlag {
        lemma_list_values_accumulate(slots, flags, j, n);
        lemma_place_keeps_flags(slots, dispatch_all(slots, flags, n), ops, 0, 0, j);
    }
}

/// Polar values accumulate: a `Vec<PolarVal>` field that no flag clears ends
/// with the `(polarity, value)` of every occurrence of its flag, in order.
pub proof fn lemma_polar_values_accumulate(slots: Seq<SlotView>, flags: Seq<ParsedView>, j: int, n: int)
    requires
        0 <= j < slots.len(),
        slots[j].kind == RoleKind::PolarValueFlag,
        never_reset(slots, j),
        0 <= n <= flags.len(),
    ensures
        dispatch_all(slots, flags, n).len() == slots.len(),
        dispatch_all(slots, flags, n)[j] == FieldValueView::PolarList(
            polar_occurrences(slots, flags, j, n),
        ),
    decreases n,
{
    if n > 0 {
        lemma_polar_values_accumulate(slots, flags, j, n - 1);
        let vals = dispatch_all(slots, flags, n - 1);
        let p = flags[n - 1];
        if first_arm_from(slots, p, 0) == Some(j) {
            lemma_first_arm_found(slots, p, 0);
            assert(!slots[j].resets.contains(j));
            lemma_dispatch_last_wins(slots, vals, p, j);
        } else {
            lemma_dispatch_other(slots, vals, p, j);
        }
    }
}

/// Repeated values accumulate: a `Vec` valued field that no flag clears
/// ends with the value of every occurrence of its flag, in order.
pub proof fn lemma_list_values_accumulate(slots: Seq<SlotView>, flags: Seq<ParsedView>, j: int, n: int)
    requires
        0 <= j < slots.len(),
        slots[j].kind == RoleKind::RepeatableValueFlag,
        never_reset(slots, j),
        0 <= n <= flags.len(),
    ensures
        dispatch_all(slots, flags, n).len() == slots.len(),
        dispatch_all(slots, flags, n)[j] == FieldValueView::List(list_occurrences(slots, flags, j, n)),
    decreases n,
{
    if n > 0 {
        lemma_list_values_accumulate(slots, flags, j, n - 1);
        let vals = dispatch_all(slots, flags, n - 1);
        let p = flags[n - 1];
        if first_arm_from(slots, p, 0) == Some(j) {
            lemma_first_arm_found(slots, p, 0);
            assert(!slots[j].resets.contains(j));
            lemma_dispatch_last_wins(slots, vals, p, j);
        } else {
            lemma_dispatch_other(slots, vals, p, j);
        }
    }
}

// ── Implementation ──────────────────────────────────────────────

fn initial_field(k: RoleKind) -> (v: FieldValue)
    ensures
        v@ == initial_value(k),
{
    if k == RoleKind::BoolFlag {
        FieldValue::Bool(false)
    } else if k == RoleKind::PolarityFlag {
        FieldValue::Polar(Polarity::Unset)
    } else if k == RoleKind::ValuedFlag || k == RoleKind::OptionalPositional {
        FieldValue::Opt(None)
    } else if k == RoleKind::RepeatableValueFlag {
        let l: Vec<String> = Vec::new();
        assert(string_views(l@) =~= seq![]);
        FieldValue::List(l)
    } else if k == RoleKind::PolarValueFlag {
        let l: Vec<PolarVal> = Vec::new();
        assert(polar_views(l@) =~= seq![]);
        FieldValue::PolarList(l)
    } else if k == RoleKind::RequiredPositional {
        FieldValue::Str(String::new())
    } else {
        FieldValue::Rest(Operands::default())
    }
}

fn initial_fields(slots: &[Slot]) -> (r: Vec<FieldValue>)
    ensures
        r@.len() == slots@.len(),
        value_views(r@) == initial_values(slot_views(slots@)),
{
    let mut r: Vec<FieldValue> = Vec::new();
    let mut j: usize = 0;
    while j < slots.len()
        invariant
            0 <= j <= slots@.len(),
            value_views(r@) == initial_values(slot_views(slots@)).take(j as int),
        decreases slots.len() - j,
    {
        let ghost before = value_views(r@);
        let v = initial_field(slots[j].kind);
        let ghost vv = v@;
        r.push(v);
        assert(value_views(r@) =~= before.push(vv));
        j += 1;
        assert(initial_values(slot_views(slots@)).take(j as int) =~= initial_values(
            slot_views(slots@),
        ).take(j - 1).push(vv));
    }
    assert(initial_values(slot_views(slots@)).take(slots@.len() as int) =~= initial_values(
        slot_views(slots@),
    ));
    r
}

fn arm(s: &Slot, p: &Parsed) -> (r: bool)
    ensures
        r == arm_matches(s@, p@),
{
    match p {
        Parsed::Bool(c) => s.kind == RoleKind::BoolFlag && *c == s.id,
        Parsed::Polar(c, _) => s.kind == RoleKind::PolarityFlag && *c == s.id,
        Parsed::Value(c, _) => (s.kind == RoleKind::ValuedFlag || s.kind
            == RoleKind::RepeatableValueFlag) && *c == s.id,
        Parsed::PolarValue(c, _, _) => s.kind == RoleKind::PolarValueFlag && *c == s.id,
    }
}

fn first_arm(slots: &[Slot], p: &Parsed) -> (r: Option<usize>)
    ensures
        match r {
            Some(j) => j < slots@.len() && first_arm_from(slot_views(slots@), p@, 0) == Some(
                j as int,
            ),
            None => first_arm_from(slot_views(slots@), p@, 0) is None,
        },
{
    let mut k: usize = 0;
    while k < slots.len()
        invariant
            0 <= k <= slots@.len(),
            first_arm_from(slot_views(slots@), p@, 0) == first_arm_from(
                slot_views(slots@),
                p@,
                k as int,
            ),
        decreases slots.len() - k,
    {
        if arm(&slots[k], p) {
            return Some(k);
        }
        k += 1;
    }
    None
}

fn applied(kind: RoleKind, v: FieldValue, p: &Parsed) -> (r: FieldValue)
    ensures
        r@ == apply_flag(kind, v@, p@),
{
    match p {
        Parsed::Bool(_) => FieldValue::Bool(true),
        Parsed::Polar(_, pol) => FieldValue::Polar(*pol),
        Parsed::Value(_, val) => {
            if kind == RoleKind::ValuedFlag {
                FieldValue::Opt(Some(val.clone()))
            } else {
                match v {
                    FieldValue::List(l) => {
                        let ghost lv = string_views(l@);
                        let mut l = l;
                        l.push(val.clone());
                        assert(string_views(l@) =~= lv.push(val@));
                        FieldValue::List(l)
                    },
                    _ => {
                        let mut l: Vec<String> = Vec::new();
                        l.push(val.clone());
                        assert(string_views(l@) =~= seq![val@]);
                        FieldValue::List(l)
                    },
                }
            }
        },
        Parsed::PolarValue(_, pol, val) => {
            let pv = PolarVal { polarity: *pol, value: val.clone() };
            match v {
                FieldValue::PolarList(l) => {
                    let ghost lv = polar_views(l@);
                    let mut l = l;
                    l.push(pv);
                    assert(polar_views(l@) =~= lv.push((*pol, val@)));
                    FieldValue::PolarList(l)
                },
                _ => {
                    let mut l: Vec<PolarVal> = Vec::new();
                    l.push(pv);
                    assert(polar_views(l@) =~= seq![(*pol, val@)]);
                    FieldValue::PolarList(l)
                },
            }
        },
    }
}

/// Applies one flag occurrence to the field values, as [`dispatch`] says.
fn dispatch_one(slots: &[Slot], vals: &mut Vec<FieldValue>, p: &Parsed)
    requires
        old(vals)@.len() == slots@.len(),
    ensures
        final(vals)@.len() == slots@.len(),
        value_views(final(vals)@) == dispatch(slot_views(slots@), value_views(old(vals)@), p@),
{
    let ghost sv = slot_views(slots@);
    let j = match first_arm(slots, p) {
        None => {
            return;
        },
        Some(j) => j,
    };
    let kind = slots[j].kind;
    let mut cur = FieldValue::Bool(false);
    vals.set_and_swap(j, &mut cur);
    let ghost v0 = value_views(old(vals)@);
    assert(cur@ == v0[j as int]);
    let newv = applied(kind, cur, p);
    vals.set(j, newv);
    let ghost v1 = value_views(vals@);
    assert(v1 =~= v0.update(j as int, apply_flag(sv[j as int].kind, v0[j as int], p@)));
    let rs = &slots[j].resets;
    let ghost rv = rs@.map_values(|x: usize| x as int);
    assert(rv == sv[j as int].resets);
    let mut m: usize = 0;
    while m < rs.len()
        invariant
            sv == slot_views(slots@),
            vals@.len() == slots@.len(),
            rv == rs@.map_values(|x: usize| x as int),
            0 <= m <= rs@.len(),
            apply_resets(sv, v1, rv, 0) == apply_resets(sv, value_views(vals@), rv, m as int),
        decreases rs.len() - m,
    {
        let r = rs[m];
        assert(rv[m as int] == r as int);
        if r < vals.len() {
            let ghost before = value_views(vals@);
            let init = initial_field(slots[r].kind);
            let ghost iv = init@;
            vals.set(r, init);
            assert(value_views(vals@) =~= before.update(r as int, iv));
        }
        m += 1;
    }
}

fn clone_string(s: &String) -> (r: String)
    ensures
        r@ == s@,
{
    s.clone()
}

/// The operands from `idx` on.
fn rest_from(ops: &Vec<String>, idx: usize) -> (r: Operands)
    ensures
        r@ == (if idx <= ops@.len() {
            string_views(ops@).subrange(idx as int, ops@.len() as int)
        } else {
            seq![]
        }),
{
    let mut items: Vec<String> = Vec::new();
    let mut i = idx;
    if idx > ops.len() {
        assert(string_views(items@) =~= seq![]);
        return Operands::from_vec(items);
    }
    while i < ops.len()
        invariant
            idx <= i <= ops@.len(),
            string_views(items@) == string_views(ops@).subrange(idx as int, i as int),
        decreases ops.len() - i,
    {
        let ghost before = string_views(items@);
        items.push(clone_string(&ops[i]));
        assert(string_views(items@) =~= before.push(ops@[i as int]@));
        i += 1;
        assert(string_views(ops@).subrange(idx as int, i as int) =~= string_views(ops@).subrange(
            idx as int,
            i - 1,
        ).push(ops@[i - 1]@));
    }
    Operands::from_vec(items)
}

proof fn lemma_place_error_sticks(
    slots: Seq<SlotView>,
    vals: Seq<FieldValueView>,
    ops: Seq<Seq<char>>,
    j: int,
    idx: int,
)
    requires
        0 <= j < slots.len(),
        slots[j].kind == RoleKind::RequiredPositional,
        !(0 <= idx < ops.len()),
    ensures
        place_operands(slots, vals, ops, j, idx) == Err::<Seq<FieldValueView>, ErrorView>(
            ErrorView::MissingRequired(slots[j].ident),
        ),
{
}

/// Binds a scan to the field values, as [`spec_bind`] says.
pub fn bind(slots: &[Slot], scanned: ScanResult) -> (r: Result<Vec<FieldValue>, Error>)
    ensures
        match r {
            Ok(v) => spec_bind(
                slot_views(slots@),
                parsed_views(scanned.flags@),
                string_views(scanned.operands@),
            ) == Ok::<Seq<FieldValueView>, ErrorView>(value_views(v@)),
            Err(e) => spec_bind(
                slot_views(slots@),
                parsed_views(scanned.flags@),
                string_views(scanned.operands@),
            ) == Err::<Seq<FieldValueView>, ErrorView>(e@),
        },
{
    let ghost sv = slot_views(slots@);
    let ghost fv = parsed_views(scanned.flags@);
    let ghost ov = string_views(scanned.operands@);
    let mut vals = initial_fields(slots);
    let mut i: usize = 0;
    while i < scanned.flags.len()
        invariant
            sv == slot_views(slots@),
            fv == parsed_views(scanned.flags@),
            0 <= i <= fv.len(),
            vals@.len() == slots@.len(),
            value_views(vals@) == dispatch_all(sv, fv, i as int),
        decreases scanned.flags.len() - i,
    {
        dispatch_one(slots, &mut vals, &scanned.flags[i]);
        i += 1;
    }
    let ghost dv = value_views(vals@);
    let ops = &scanned.operands;
    let mut idx: usize = 0;
    let mut j: usize = 0;
    while j < slots.len()
        invariant
            sv == slot_views(slots@),
            ov == string_views(ops@),
            fv == parsed_views(scanned.flags@),
            ov == string_views(scanned.operands@),
            dv == dispatch_all(sv, fv, fv.len() as int),
            0 <= j <= slots@.len(),
            idx <= j,
            vals@.len() == slots@.len(),
            place_operands(sv, dv, ov, 0, 0) == place_operands(
                sv,
                value_views(vals@),
                ov,
                j as int,
                idx as int,
            ),
        decreases slots.len() - j,
    {
        let k = slots[j].kind;
        let ghost before = value_views(vals@);
        if k == RoleKind::OptionalPositional {
            let v = if idx < ops.len() {
                Some(clone_string(&ops[idx]))
            } else {
                None
            };
            let nv = FieldValue::Opt(v);
            let ghost nvv = nv@;
            vals.set(j, nv);
            assert(value_views(vals@) =~= before.update(j as int, nvv));
            idx += 1;
        } else if k == RoleKind::RequiredPositional {
            if idx < ops.len() {
                let nv = FieldValue::Str(clone_string(&ops[idx]));
                let ghost nvv = nv@;
                vals.set(j, nv);
                assert(value_views(vals@) =~= before.update(j as int, nvv));
                idx += 1;
            } else {
                proof {
                    lemma_place_error_sticks(sv, before, ov, j as int, idx as int);
                }
                return Err(Error::MissingRequired(clone_string(&slots[j].ident)));
            }
        } else if k == RoleKind::Rest {
            let nv = FieldValue::Rest(rest_from(ops, idx));
            let ghost nvv = nv@;
            vals.set(j, nv);
            assert(value_views(vals@) =~= before.update(j as int, nvv));
        }
        j += 1;
    }
    Ok(vals)
}

/// Every value occurrence belongs to a valued or repeatable valued field.
pub proof fn lemma_occurrences_are_valued(slots: Seq<SlotView>, flags: Seq<ParsedView>, n: int)
    ensures
        forall|t: int|
            0 <= t < value_occurrences(slots, flags, n).len() ==> {
                let j = (#[trigger] value_occurrences(slots, flags, n)[t]).0;
                &&& 0 <= j < slots.len()
                &&& (slots[j].kind == RoleKind::ValuedFlag || slots[j].kind
                    == RoleKind::RepeatableValueFlag)
            },
    decreases n,
{
    if 0 < n <= flags.len() {
        lemma_occurrences_are_valued(slots, flags, n - 1);
        lemma_first_arm_found(slots, flags[n - 1], 0);
    }
}

impl CommandPlan {
    /// Scans `args` with the command's flag table, as [`spec_scan`] says.
    pub fn scan_args(&self, args: &[&str]) -> (r: Result<ScanResult, Error>)
        ensures
            r matches Ok(res) ==> spec_scan(
                self.flags@,
                str_views(args@),
                self.def.on_unknown,
                self.def.style,
                self.permute,
            ) == Ok::<(Seq<ParsedView>, Seq<Seq<char>>), ErrorView>(
                (parsed_views(res.flags@), string_views(res.operands@)),
            ),
            r matches Err(e) ==> spec_scan(
                self.flags@,
                str_views(args@),
                self.def.on_unknown,
                self.def.style,
                self.permute,
            ) == Err::<(Seq<ParsedView>, Seq<Seq<char>>), ErrorView>(e@),
    {
        scan(args, self.flags.as_slice(), self.def.on_unknown, self.def.style, self.permute)
    }

    /// Every value that the scanned `flags` give valued fields, with the
    /// field's slot, in the order given, as [`value_occurrences`] says: the
    /// values that a field's type must accept, each when it is seen.
    pub fn value_occurrences(&self, flags: &[Parsed]) -> (r: Vec<(usize, String)>)
        ensures
            occurrence_views(r@) == value_occurrences(
                slot_views(self.slots@),
                parsed_views(flags@),
                flags@.len() as int,
            ),
    {
        let ghost sv = slot_views(self.slots@);
        let ghost fv = parsed_views(flags@);
        let mut out: Vec<(usize, String)> = Vec::new();
        let mut i: usize = 0;
        assert(occurrence_views(out@) =~= seq![]);
        while i < flags.len()
            invariant
                sv == slot_views(self.slots@),
                fv == parsed_views(flags@),
                0 <= i <= flags@.len(),
                occurrence_views(out@) == value_occurrences(sv, fv, i as int),
            decreases flags.len() - i,
        {
            let ghost before = occurrence_views(out@);
            let p = &flags[i];
            assert(fv[i as int] == p@);
            match p {
                Parsed::Value(_, v) => {
                    match first_arm(self.slots.as_slice(), p) {
                        Some(j) => {
                            let v2 = clone_string(v);
                            out.push((j, v2));
                            assert(occurrence_views(out@) =~= before.push((j as int, v@)));
                        },
                        None => {},
                    }
                },
                _ => {},
            }
            i += 1;
        }
        out
    }

    /// Parses `args` into field values, as [`spec_parse_command`] says.
    pub fn parse(&self, args: &[&str]) -> (r: Result<Vec<FieldValue>, Error>)
        ensures
            match r {
                Ok(v) => spec_parse_command(*self, str_views(args@)) == Ok::<
                    Seq<FieldValueView>,
                    ErrorView,
                >(value_views(v@)),
                Err(e) => spec_parse_command(*self, str_views(args@)) == Err::<
                    Seq<FieldValueView>,
                    ErrorView,
                >(e@),
            },
    {
        let scanned = self.scan_args(args)?;
        bind(self.slots.as_slice(), scanned)
    }
}

} // verus!
