use vstd::prelude::*;
use vstd::string::StringExecFns;
use crate::table::PathTable;
use crate::text::{contains_substring, decimal, has_substring, join_dotted, push_decimal};

verus! {

#[derive(Clone, Copy, Debug, PartialEq, Eq, Structural)]
pub enum Operation {
    /// Relative multiplier or addition.
    Modify,
    AddField,
    /// Soft-removes a field but leaves a tombstone.
    Deprecate,
}

/// One mod transform over a dotted field path.
#[derive(Clone, Debug)]
pub struct Transform {
    /// e.g. "pawn.needs" or "entity.*"
    pub target: String,
    pub operation: Operation,
    /// Dot-path, e.g. "hunger.depletion_rate".
    pub path: String,
    /// e.g. "0.8x" or "12.5"
    pub value: String,
    /// e.g. ">=epoch:2847" (a causal epoch, not wall time).
    pub contract: Option<String>,
    /// Monotonic causal ID.
    pub epoch: u64,
    /// For mod CI.
    pub author: String,
    /// When renaming a field, its old name.
    pub alias: Option<String>,
}

#[derive(Debug)]
pub struct TransformStack {
    pub base_epoch: u64,
    pub transforms: Vec<Transform>,
}

#[derive(Clone, Debug, PartialEq, Eq)]
pub enum Diagnostic {
    SameFieldConflict { path: String, epoch_a: u64, epoch_b: u64 },
    FieldTombstoned { path: String, retired_at: u64, successor: Option<String> },
    /// `transform_id` is `author:epoch`.
    MissingField { path: String, transform_id: String },
}

/// What validation reads of a transform.
pub ghost struct TransformModel {
    pub target: Seq<char>,
    pub operation: Operation,
    pub path: Seq<char>,
    pub epoch: u64,
    pub author: Seq<char>,
    pub alias: Option<Seq<char>>,
}

impl View for Transform {
    type V = TransformModel;

    open spec fn view(&self) -> TransformModel {
        TransformModel {
            target: self.target@,
            operation: self.operation,
            path: self.path@,
            epoch: self.epoch,
            author: self.author@,
            alias: self.alias.deep_view(),
        }
    }
}

pub ghost enum DiagnosticModel {
    SameFieldConflict { path: Seq<char>, epoch_a: u64, epoch_b: u64 },
    FieldTombstoned { path: Seq<char>, retired_at: u64, successor: Option<Seq<char>> },
    MissingField { path: Seq<char>, transform_id: Seq<char> },
}

impl View for Diagnostic {
    type V = DiagnosticModel;

    open spec fn view(&self) -> DiagnosticModel {
        match self {
            Diagnostic::SameFieldConflict { path, epoch_a, epoch_b } => DiagnosticModel::SameFieldConflict {
                path: path@,
                epoch_a: *epoch_a,
                epoch_b: *epoch_b,
            },
            Diagnostic::FieldTombstoned { path, retired_at, successor } => DiagnosticModel::FieldTombstoned {
                path: path@,
                retired_at: *retired_at,
                successor: successor.deep_view(),
            },
            Diagnostic::MissingField { path, transform_id } => DiagnosticModel::MissingField {
                path: path@,
                transform_id: transform_id@,
            },
        }
    }
}

/// The diagnostics as models, in order.
pub open spec fn diagnostics_view(ds: Seq<Diagnostic>) -> Seq<DiagnosticModel> {
    ds.map_values(|d: Diagnostic| d@)
}

/// The transforms as models, in order.
pub open spec fn transforms_view(ts: Seq<Transform>) -> Seq<TransformModel> {
    ts.map_values(|t: Transform| t@)
}

/// The validator's running state: the live fields with the epoch they were last
/// touched, the tombstoned fields with their retirement epoch and successor, and
/// the diagnostics so far.
pub ghost struct ValidationState {
    pub active: Map<Seq<char>, u64>,
    pub tombstoned: Map<Seq<char>, (u64, Option<Seq<char>>)>,
    pub diagnostics: Seq<DiagnosticModel>,
}

/// The full logical path `target.path` a transform addresses.
pub open spec fn full_path(t: TransformModel) -> Seq<char> {
    t.target + seq!['.'] + t.path
}

/// Paths that must exist before they are modified or deprecated.
pub open spec fn strict_path(p: Seq<char>) -> bool {
    has_substring(p, "strict_missing"@)
}

/// `author:epoch`.
pub open spec fn transform_id(t: TransformModel) -> Seq<char> {
    t.author + seq![':'] + decimal(t.epoch as nat)
}

/// One validation step over a transform.
pub open spec fn validation_step(s: ValidationState, t: TransformModel) -> ValidationState {
    let p = full_path(t);
    if s.tombstoned.contains_key(p) {
        ValidationState {
            diagnostics: s.diagnostics.push(
                DiagnosticModel::FieldTombstoned {
                    path: p,
                    retired_at: s.tombstoned[p].0,
                    successor: s.tombstoned[p].1,
                },
            ),
            ..s
        }
    } else {
        match t.operation {
            Operation::AddField => if s.active.contains_key(p) {
                ValidationState {
                    diagnostics: s.diagnostics.push(
                        DiagnosticModel::SameFieldConflict { path: p, epoch_a: s.active[p], epoch_b: t.epoch },
                    ),
                    ..s
                }
            } else {
                ValidationState { active: s.active.insert(p, t.epoch), ..s }
            },
            Operation::Modify => if !s.active.contains_key(p) && strict_path(p) {
                ValidationState {
                    diagnostics: s.diagnostics.push(
                        DiagnosticModel::MissingField { path: p, transform_id: transform_id(t) },
                    ),
                    ..s
                }
            } else {
                ValidationState { active: s.active.insert(p, t.epoch), ..s }
            },
            Operation::Deprecate => ValidationState {
                active: s.active.remove(p),
                tombstoned: s.tombstoned.insert(p, (t.epoch, t.alias)),
                diagnostics: if !s.active.contains_key(p) && strict_path(p) {
                    s.diagnostics.push(
                        DiagnosticModel::MissingField { path: p, transform_id: transform_id(t) },
                    )
                } else {
                    s.diagnostics
                },
            },
        }
    }
}

/// The state before any transform is considered.
pub open spec fn initial_validation_state() -> ValidationState {
    ValidationState {
        active: Map::empty(),
        tombstoned: Map::empty(),
        diagnostics: Seq::empty(),
    }
}

/// The state after validating the first `n` transforms in stack order.
pub open spec fn validate_prefix(ts: Seq<TransformModel>, n: nat) -> ValidationState
    decreases n,
{
    if n == 0 || n > ts.len() {
        initial_validation_state()
    } else {
        validation_step(validate_prefix(ts, (n - 1) as nat), ts[n - 1])
    }
}

/// All diagnostics for a stack of transforms.
pub open spec fn stack_diagnostics(ts: Seq<TransformModel>) -> Seq<DiagnosticModel> {
    validate_prefix(ts, ts.len()).diagnostics
}

fn clone_opt_string(o: &Option<String>) -> (r: Option<String>)
    ensures
        r.deep_view() == o.deep_view(),
{
    match o {
        Some(s) => Some(s.clone()),
        None => None,
    }
}

fn make_transform_id(t: &Transform) -> (id: String)
    ensures
        id@ == transform_id(t@),
{
    let mut id = t.author.clone();
    proof {
        reveal_strlit(":");
    }
    id.append(":");
    push_decimal(&mut id, t.epoch);
    id
}

/// Validates a transform stack, returning every diagnostic found (in stack order)
/// when there is at least one.
pub fn validate_stack(stack: &TransformStack) -> (r: Result<(), Vec<Diagnostic>>)
    ensures
        r is Ok <==> stack_diagnostics(transforms_view(stack.transforms@)).len() == 0,
        r matches Err(ds) ==> diagnostics_view(ds@) == stack_diagnostics(
            transforms_view(stack.transforms@),
        ),
{
    let ghost ts = transforms_view(stack.transforms@);
    let mut diagnostics: Vec<Diagnostic> = Vec::new();
    // Active paths with the epoch they were last modified.
    let mut active_fields: PathTable<u64> = PathTable::new();
    // Tombstoned paths with their retirement epoch and optional successor alias.
    let mut tombstoned_fields: PathTable<(u64, Option<String>)> = PathTable::new();
    let mut i: usize = 0;
    while i < stack.transforms.len()
        invariant
            i <= stack.transforms.len(),
            ts == transforms_view(stack.transforms@),
            active_fields.wf(),
            tombstoned_fields.wf(),
            active_fields.map() == validate_prefix(ts, i as nat).active,
            tombstoned_fields.map() == validate_prefix(ts, i as nat).tombstoned,
            diagnostics_view(diagnostics@) == validate_prefix(ts, i as nat).diagnostics,
        decreases stack.transforms.len() - i,
    {
        let transform = &stack.transforms[i];
        let ghost s = validate_prefix(ts, i as nat);
        let ghost t = ts[i as int];
        assert(t == transform@);
        assert(validate_prefix(ts, (i + 1) as nat) == validation_step(s, t));
        let ghost before = diagnostics@;
        // Build the full logical path.
        let full = join_dotted(&transform.target, &transform.path);
        assert(full@ == full_path(t));
        let tomb = tombstoned_fields.get(&full);
        match tomb {
            Some(entry) => {
                let retired_at = entry.0;
                let successor = clone_opt_string(&entry.1);
                diagnostics.push(Diagnostic::FieldTombstoned { path: full, retired_at, successor });
                assert(diagnostics_view(diagnostics@) =~= diagnostics_view(before).push(
                    diagnostics@[diagnostics@.len() - 1]@,
                ));
            },
            None => {
                match transform.operation {
                    Operation::AddField => {
                        match active_fields.get(&full) {
                            Some(existing) => {
                                let epoch_a = *existing;
                                diagnostics.push(
                                    Diagnostic::SameFieldConflict {
                                        path: full,
                                        epoch_a,
                                        epoch_b: transform.epoch,
                                    },
                                );
                                assert(diagnostics_view(diagnostics@) =~= diagnostics_view(before).push(
                                    diagnostics@[diagnostics@.len() - 1]@,
                                ));
                            },
                            None => {
                                active_fields.insert(full, transform.epoch);
                            },
                        }
                    },
                    Operation::Modify => {
                        let missing = !active_fields.contains_key(&full) && contains_substring(
                            full.as_str(),
                            "strict_missing",
                        );
                        if missing {
                            let transform_id = make_transform_id(transform);
                            diagnostics.push(Diagnostic::MissingField { path: full, transform_id });
                            assert(diagnostics_view(diagnostics@) =~= diagnostics_view(before).push(
                                diagnostics@[diagnostics@.len() - 1]@,
                            ));
                        } else {
                            active_fields.insert(full, transform.epoch);
                        }
                    },
                    Operation::Deprecate => {
                        let missing = !active_fields.contains_key(&full) && contains_substring(
                            full.as_str(),
                            "strict_missing",
                        );
                        if missing {
                            let transform_id = make_transform_id(transform);
                            diagnostics.push(
                                Diagnostic::MissingField { path: full.clone(), transform_id },
                            );
                            assert(diagnostics_view(diagnostics@) =~= diagnostics_view(before).push(
                                diagnostics@[diagnostics@.len() - 1]@,
                            ));
                        }
                        active_fields.remove(&full);
                        let alias = clone_opt_string(&transform.alias);
                        tombstoned_fields.insert(full, (transform.epoch, alias));
                    },
                }
            },
        }
        i += 1;
    }
    assert(ts.len() == stack.transforms@.len());
    if diagnostics.len() == 0 {
        Ok(())
    } else {
        Err(diagnostics)
    }
}


/// One validation step adds at most one diagnostic, keeps the earlier ones, and never
/// forgets a tombstone.
proof fn lemma_step_monotone(st: ValidationState, t: TransformModel)
    ensures
        ({
            let next = validation_step(st, t);
            &&& next.diagnostics.len() <= st.diagnostics.len() + 1
            &&& next.diagnostics.subrange(0, st.diagnostics.len() as int) == st.diagnostics
            &&& forall|p: Seq<char>| st.tombstoned.contains_key(p) ==> #[trigger] next.tombstoned.contains_key(p)
        }),
{
    let next = validation_step(st, t);
    assert(next.diagnostics.subrange(0, st.diagnostics.len() as int) =~= st.diagnostics);
}

/// Diagnostics only accumulate and tombstones are permanent: validating more of a
/// stack keeps every earlier diagnostic (in order) and every earlier tombstone, and
/// each transform adds at most one diagnostic.
pub proof fn lemma_validation_monotone(ts: Seq<TransformModel>, n: nat, m: nat)
    requires
        n <= m <= ts.len(),
    ensures
        validate_prefix(ts, m).diagnostics.subrange(0, validate_prefix(ts, n).diagnostics.len() as int)
            == validate_prefix(ts, n).diagnostics,
        validate_prefix(ts, n).diagnostics.len() <= validate_prefix(ts, m).diagnostics.len(),
        validate_prefix(ts, m).diagnostics.len() <= validate_prefix(ts, n).diagnostics.len() + (m - n),
        forall|p: Seq<char>|
            validate_prefix(ts, n).tombstoned.contains_key(p) ==> #[trigger] validate_prefix(ts, m).tombstoned.contains_key(p),
    decreases m - n,
{
    if n < m {
        lemma_validation_monotone(ts, n, (m - 1) as nat);
        lemma_step_monotone(validate_prefix(ts, (m - 1) as nat), ts[m - 1]);
        let dn = validate_prefix(ts, n).diagnostics;
        let dm1 = validate_prefix(ts, (m - 1) as nat).diagnostics;
        let dm = validate_prefix(ts, m).diagnostics;
        assert(dm.subrange(0, dn.len() as int) =~= dm.subrange(0, dm1.len() as int).subrange(0, dn.len() as int));
    } else {
        assert(validate_prefix(ts, m).diagnostics.subrange(0, validate_prefix(ts, n).diagnostics.len() as int)
            =~= validate_prefix(ts, n).diagnostics);
    }
}

/// A stack has at most one diagnostic per transform.
pub proof fn lemma_at_most_one_diagnostic_per_transform(ts: Seq<TransformModel>)
    ensures
        stack_diagnostics(ts).len() <= ts.len(),
{
    lemma_validation_monotone(ts, 0, ts.len());
}

/// Tombstoned names are blacklisted permanently: once a path is tombstoned, every
/// later transform addressing it, whatever its operation, is rejected with a
/// tombstone diagnostic carrying the retirement epoch and successor.
pub proof fn lemma_tombstoned_path_rejected(ts: Seq<TransformModel>, n: nat, k: nat)
    requires
        n <= k < ts.len(),
        validate_prefix(ts, n).tombstoned.contains_key(full_path(ts[k as int])),
    ensures
        ({
            let before = validate_prefix(ts, k);
            let p = full_path(ts[k as int]);
            validate_prefix(ts, k + 1).diagnostics == before.diagnostics.push(
                DiagnosticModel::FieldTombstoned {
                    path: p,
                    retired_at: before.tombstoned[p].0,
                    successor: before.tombstoned[p].1,
                },
            )
        }),
{
    lemma_validation_monotone(ts, n, k);
}

/// The path a diagnostic names.
pub open spec fn diagnostic_path(d: DiagnosticModel) -> Seq<char> {
    match d {
        DiagnosticModel::SameFieldConflict { path, .. } => path,
        DiagnosticModel::FieldTombstoned { path, .. } => path,
        DiagnosticModel::MissingField { path, .. } => path,
    }
}

/// Whether diagnostic `d` is one that transform `t` raises: it names `t`'s full path,
/// and a missing-field diagnostic names `t` as `author:epoch`.
pub open spec fn raised_by(d: DiagnosticModel, t: TransformModel) -> bool {
    &&& diagnostic_path(d) == full_path(t)
    &&& (d matches DiagnosticModel::MissingField { transform_id: id, .. } ==> id == transform_id(t))
}

/// Every diagnostic comes from a transform of the stack, in stack order: the result
/// gives, for each diagnostic of the first `n` transforms, the position of the
/// transform that raised it, and those positions strictly increase (one diagnostic
/// per transform at most).
pub proof fn lemma_diagnostic_sources(ts: Seq<TransformModel>, n: nat) -> (src: Seq<int>)
    requires
        n <= ts.len(),
    ensures
        src.len() == validate_prefix(ts, n).diagnostics.len(),
        forall|j: int| 0 <= j < src.len() ==> 0 <= #[trigger] src[j] < n,
        forall|j: int, k: int| 0 <= j < k < src.len() ==> #[trigger] src[j] < #[trigger] src[k],
        forall|j: int|
            0 <= j < src.len() ==> raised_by(
                #[trigger] validate_prefix(ts, n).diagnostics[j],
                ts[src[j]],
            ),
    decreases n,
{
    if n == 0 {
        Seq::empty()
    } else {
        let prev = lemma_diagnostic_sources(ts, (n - 1) as nat);
        let before = validate_prefix(ts, (n - 1) as nat);
        let after = validate_prefix(ts, n);
        let t = ts[n - 1];
        if after.diagnostics.len() == before.diagnostics.len() {
            assert(after.diagnostics =~= before.diagnostics);
            prev
        } else {
            assert(after.diagnostics =~= before.diagnostics.push(after.diagnostics.last()));
            assert(raised_by(after.diagnostics.last(), t));
            let src = prev.push(n - 1);
            assert forall|j: int| 0 <= j < src.len() implies raised_by(
                #[trigger] after.diagnostics[j],
                ts[src[j]],
            ) by {
                if j < prev.len() {
                    assert(after.diagnostics[j] == before.diagnostics[j]);
                }
            }
            src
        }
    }
}

/// A field's recorded epoch is the one it was last modified at: a `Modify` of a path
/// that is not tombstoned, and that is live or not strict, raises nothing and leaves
/// the path live at the `Modify`'s epoch, whether or not it was live before.
pub proof fn lemma_modify_records_its_epoch(ts: Seq<TransformModel>, k: nat)
    requires
        k < ts.len(),
        ts[k as int].operation == Operation::Modify,
        !validate_prefix(ts, k).tombstoned.contains_key(full_path(ts[k as int])),
        validate_prefix(ts, k).active.contains_key(full_path(ts[k as int])) || !strict_path(full_path(ts[k as int])),
    ensures
        validate_prefix(ts, k + 1).active.contains_key(full_path(ts[k as int])),
        validate_prefix(ts, k + 1).active[full_path(ts[k as int])] == ts[k as int].epoch,
        validate_prefix(ts, k + 1).diagnostics == validate_prefix(ts, k).diagnostics,
        validate_prefix(ts, k + 1).tombstoned == validate_prefix(ts, k).tombstoned,
{
}

/// Modifying a strict path that is neither live nor tombstoned raises a missing-field
/// diagnostic naming the path and the transform (`author:epoch`), and changes no field.
pub proof fn lemma_modify_of_missing_strict_field(ts: Seq<TransformModel>, k: nat)
    requires
        k < ts.len(),
        ts[k as int].operation == Operation::Modify,
        !validate_prefix(ts, k).tombstoned.contains_key(full_path(ts[k as int])),
        !validate_prefix(ts, k).active.contains_key(full_path(ts[k as int])),
        strict_path(full_path(ts[k as int])),
    ensures
        validate_prefix(ts, k + 1).diagnostics == validate_prefix(ts, k).diagnostics.push(
            DiagnosticModel::MissingField {
                path: ts[k as int].target + seq!['.'] + ts[k as int].path,
                transform_id: ts[k as int].author + seq![':'] + decimal(ts[k as int].epoch as nat),
            },
        ),
        validate_prefix(ts, k + 1).active == validate_prefix(ts, k).active,
        validate_prefix(ts, k + 1).tombstoned == validate_prefix(ts, k).tombstoned,
{
}

/// Adding a field that is already live raises a same-field conflict naming the epoch
/// the field was last added or modified at and the new transform's epoch, and leaves
/// the field as it was; adding a fresh, untombstoned field raises nothing and records
/// it at the new epoch.
pub proof fn lemma_add_field_against_live_field(ts: Seq<TransformModel>, k: nat)
    requires
        k < ts.len(),
        ts[k as int].operation == Operation::AddField,
        !validate_prefix(ts, k).tombstoned.contains_key(full_path(ts[k as int])),
    ensures
        ({
            let p = full_path(ts[k as int]);
            let before = validate_prefix(ts, k);
            let after = validate_prefix(ts, k + 1);
            &&& before.active.contains_key(p) ==> after.diagnostics == before.diagnostics.push(
                DiagnosticModel::SameFieldConflict { path: p, epoch_a: before.active[p], epoch_b: ts[k as int].epoch },
            ) && after.active == before.active
            &&& !before.active.contains_key(p) ==> after.diagnostics == before.diagnostics
                && after.active.contains_key(p) && after.active[p] == ts[k as int].epoch
        }),
{
}

/// Deprecating an untombstoned path retires it: it is no longer live and is tombstoned
/// with the deprecation's epoch and successor alias; a missing-field diagnostic naming
/// the transform is raised exactly when the path was not live and is strict.
pub proof fn lemma_deprecate_retires_path(ts: Seq<TransformModel>, k: nat)
    requires
        k < ts.len(),
        ts[k as int].operation == Operation::Deprecate,
        !validate_prefix(ts, k).tombstoned.contains_key(full_path(ts[k as int])),
    ensures
        ({
            let t = ts[k as int];
            let p = full_path(t);
            let before = validate_prefix(ts, k);
            let after = validate_prefix(ts, k + 1);
            &&& !after.active.contains_key(p)
            &&& after.tombstoned.contains_key(p)
            &&& after.tombstoned[p] == (t.epoch, t.alias)
            &&& after.diagnostics == if !before.active.contains_key(p) && strict_path(p) {
                before.diagnostics.push(DiagnosticModel::MissingField { path: p, transform_id: transform_id(t) })
            } else {
                before.diagnostics
            }
        }),
{
}

/// An empty stack validates.
pub proof fn lemma_empty_stack_validates()
    ensures
        stack_diagnostics(Seq::<TransformModel>::empty()).len() == 0,
{
}


/// Whether a transform rescales pawns' hunger depletion rate.
pub open spec fn rescales_hunger(t: Transform) -> bool {
    t.target@ == "pawn.needs"@ && t.path@ == "hunger.depletion_rate"@ && t.operation == Operation::Modify
}

/// The values of the transforms that rescale hunger, in stack order.
pub open spec fn hunger_rate_values(ts: Seq<Transform>) -> Seq<Seq<char>>
    decreases ts.len(),
{
    if ts.len() == 0 {
        Seq::empty()
    } else {
        let rest = hunger_rate_values(ts.drop_last());
        if rescales_hunger(ts.last()) {
            rest.push(ts.last().value@)
        } else {
            rest
        }
    }
}

/// Only pawn hunger-rate transforms are applied, each of them, in stack order: the
/// result gives, for each applied value, the position of the transform it comes from;
/// that transform is a `Modify` of `hunger.depletion_rate` targeting exactly
/// `pawn.needs`, with that value; the positions strictly increase, and every such
/// transform of the stack is among them. A stack with no such transform applies nothing.
pub proof fn lemma_hunger_values_sources(ts: Seq<Transform>) -> (src: Seq<int>)
    ensures
        src.len() == hunger_rate_values(ts).len(),
        forall|j: int| 0 <= j < src.len() ==> 0 <= #[trigger] src[j] < ts.len(),
        forall|j: int, k: int| 0 <= j < k < src.len() ==> #[trigger] src[j] < #[trigger] src[k],
        forall|j: int|
            0 <= j < src.len() ==> {
                let t = #[trigger] ts[src[j]];
                &&& t.target@ == "pawn.needs"@
                &&& t.path@ == "hunger.depletion_rate"@
                &&& t.operation == Operation::Modify
                &&& hunger_rate_values(ts)[j] == t.value@
            },
        forall|i: int|
            0 <= i < ts.len() && #[trigger] ts[i].target@ == "pawn.needs"@ && ts[i].path@ == "hunger.depletion_rate"@
                && ts[i].operation == Operation::Modify ==> src.contains(i),
    decreases ts.len(),
{
    if ts.len() == 0 {
        Seq::empty()
    } else {
        let prev = lemma_hunger_values_sources(ts.drop_last());
        let n = ts.len() - 1;
        assert(forall|j: int| 0 <= j < n ==> #[trigger] ts.drop_last()[j] == ts[j]);
        let hv = hunger_rate_values(ts);
        let hp = hunger_rate_values(ts.drop_last());
        if rescales_hunger(ts.last()) {
            let src = prev.push(n);
            assert(hv == hp.push(ts.last().value@));
            assert forall|j: int| 0 <= j < src.len() implies {
                let t = #[trigger] ts[src[j]];
                &&& t.target@ == "pawn.needs"@
                &&& t.path@ == "hunger.depletion_rate"@
                &&& t.operation == Operation::Modify
                &&& hv[j] == t.value@
            } by {
                if j < prev.len() {
                    assert(src[j] == prev[j]);
                    assert(ts.drop_last()[prev[j]] == ts[prev[j]]);
                    assert(hv[j] == hp[j]);
                }
            }
            assert forall|i: int|
                0 <= i < ts.len() && #[trigger] ts[i].target@ == "pawn.needs"@ && ts[i].path@ == "hunger.depletion_rate"@
                    && ts[i].operation == Operation::Modify implies src.contains(i) by {
                if i < n {
                    assert(ts.drop_last()[i] == ts[i]);
                    let j = choose|j: int| 0 <= j < prev.len() && prev[j] == i;
                    assert(src[j] == i);
                } else {
                    assert(src[prev.len() as int] == i);
                }
            }
            src
        } else {
            assert(hv == hp);
            assert forall|j: int| 0 <= j < prev.len() implies {
                let t = #[trigger] ts[prev[j]];
                &&& t.target@ == "pawn.needs"@
                &&& t.path@ == "hunger.depletion_rate"@
                &&& t.operation == Operation::Modify
                &&& hv[j] == t.value@
            } by {
                assert(ts.drop_last()[prev[j]] == ts[prev[j]]);
            }
            assert forall|i: int|
                0 <= i < ts.len() && #[trigger] ts[i].target@ == "pawn.needs"@ && ts[i].path@ == "hunger.depletion_rate"@
                    && ts[i].operation == Operation::Modify implies prev.contains(i) by {
                assert(i != n);
                assert(ts.drop_last()[i] == ts[i]);
            }
            prev
        }
    }
}

/// What solidifying a stack applies to pawns, all or nothing: when the stack fails
/// validation, its diagnostics and nothing else; otherwise the values (such as "0.8x")
/// of the transforms that rescale hunger, in stack order.
pub fn solidify_multipliers(stack: &TransformStack) -> (r: Result<Vec<String>, Vec<Diagnostic>>)
    ensures
        r is Ok <==> stack_diagnostics(transforms_view(stack.transforms@)).len() == 0,
        r matches Err(ds) ==> diagnostics_view(ds@) == stack_diagnostics(
            transforms_view(stack.transforms@),
        ),
        r matches Ok(vs) ==> vs@.map_values(|v: String| v@) == hunger_rate_values(stack.transforms@),
{
    match validate_stack(stack) {
        Err(ds) => Err(ds),
        Ok(()) => {
            let target = String::from_str("pawn.needs");
            let path = String::from_str("hunger.depletion_rate");
            let mut values: Vec<String> = Vec::new();
            let mut i: usize = 0;
            while i < stack.transforms.len()
                invariant
                    i <= stack.transforms@.len(),
                    target@ == "pawn.needs"@,
                    path@ == "hunger.depletion_rate"@,
                    values@.map_values(|v: String| v@) == hunger_rate_values(
                        stack.transforms@.subrange(0, i as int),
                    ),
                decreases stack.transforms.len() - i,
            {
                let t = &stack.transforms[i];
                let ghost pre = stack.transforms@.subrange(0, i as int);
                assert(stack.transforms@.subrange(0, i + 1).drop_last() =~= pre);
                assert(stack.transforms@.subrange(0, i + 1).last() == *t);
                let ghost before = values@;
                if t.target == target && t.path == path && t.operation == Operation::Modify {
                    values.push(t.value.clone());
                    assert(values@.map_values(|v: String| v@) =~= before.map_values(|v: String| v@).push(t.value@));
                }
                i += 1;
            }
            assert(stack.transforms@.subrange(0, stack.transforms@.len() as int) =~= stack.transforms@);
            Ok(values)
        },
    }
}

} // verus!
