//! The mount lifecycle manager: a state machine that decides, for a Mount,
//! Remount or Unmount request, which OS-level mount operation and which
//! mount-table edit to perform next, and how each outcome maps to the final
//! result of the invocation.
//!
//! The manager itself performs no OS call: the caller carries out each
//! returned [`Action`] — the mount or unmount primitive, or a table edit —
//! and hands back the outcome as an [`Event`]. The manager holds no state
//! across invocations; each operation starts fresh and trusts only the
//! outcomes reported to it.

use vstd::prelude::*;
use vstd::slice::slice_to_vec;
use vstd::utf8::encode_utf8;

use crate::config::{MountConfig, RemountConfig, UnmountConfig};
use crate::error::RamdiskError;
use crate::fs_type::MountType;
use crate::table::{default_options_bytes, MountTableEntry};

verus! {

/// One requested operation of the lifecycle manager, with everything the
/// whole operation needs: the filesystem kind, the target path, and — when
/// the mount table is to be touched — the path of the table file.
pub enum LifecycleOp {
    Mount { fs: MountType, target: String, persist: bool, table_path: String },
    Remount { fs: MountType, target: String, persist: bool, table_path: String },
    Unmount { target: String, drop_entry: bool, table_path: String },
}

/// What the caller is asked to do next.
pub enum Action {
    /// Invoke the OS mount primitive for an in-memory filesystem of kind
    /// `fs` at `target`.
    DoMount { fs: MountType, target: String },
    /// Invoke the OS unmount primitive on `target`.
    DoUnmount { target: String },
    /// Upsert `entry` into the mount-table file at `table_path`.
    DoUpsert { table_path: String, entry: MountTableEntry },
    /// Remove every entry for `target` from the mount-table file at
    /// `table_path`.
    DoRemove { table_path: String, target: String },
}

/// The outcome of a performed action, as the caller reports it. The mount
/// and unmount failures carry the OS error number.
pub enum Event {
    MountDone,
    MountTargetMissing,
    MountFailed(i32),
    UnmountDone,
    UnmountNotMounted(i32),
    UnmountFailed(i32),
    TableDone,
    TableReadFailed,
    TableWriteFailed,
}

/// Where an operation stands: which outcome it waits for, or the result it
/// finished with.
pub enum Phase {
    AwaitingUnmount,
    AwaitingMount,
    AwaitingTable,
    Finished(Result<(), RamdiskError>),
}

/// Whether the operation asks for a mount-table edit at all.
pub open spec fn op_wants_table(op: LifecycleOp) -> bool {
    match op {
        LifecycleOp::Mount { persist, .. } => persist,
        LifecycleOp::Remount { persist, .. } => persist,
        LifecycleOp::Unmount { drop_entry, .. } => drop_entry,
    }
}

/// The phases an operation of this kind can stand in.
pub open spec fn phase_fits(op: LifecycleOp, phase: Phase) -> bool {
    match phase {
        Phase::AwaitingUnmount => op is Remount || op is Unmount,
        Phase::AwaitingMount => op is Mount || op is Remount,
        Phase::AwaitingTable => op_wants_table(op),
        Phase::Finished(_) => true,
    }
}

/// The events that can answer the action of this phase.
pub open spec fn event_fits(phase: Phase, ev: Event) -> bool {
    match phase {
        Phase::AwaitingUnmount => ev is UnmountDone || ev is UnmountNotMounted
            || ev is UnmountFailed,
        Phase::AwaitingMount => ev is MountDone || ev is MountTargetMissing || ev is MountFailed,
        Phase::AwaitingTable => ev is TableDone || ev is TableReadFailed || ev is TableWriteFailed,
        Phase::Finished(_) => false,
    }
}

/// The UTF-8 bytes of a path string, for the target field of a table
/// entry.
pub fn path_bytes(s: &str) -> (r: Vec<u8>)
    ensures
        r@ == encode_utf8(s@),
{
    slice_to_vec(s.as_bytes())
}

/// Begins an operation: a Mount goes straight to the mount primitive; a
/// Remount and an Unmount both begin with the unmount primitive.
pub fn start(op: &LifecycleOp) -> (r: (Phase, Action))
    ensures
        phase_fits(*op, r.0),
        *op matches LifecycleOp::Mount { fs, target, .. } ==> (r.0 is AwaitingMount && (
        r.1 matches Action::DoMount { fs: af, target: at } && af == fs && at@ == target@)),
        *op matches LifecycleOp::Remount { target, .. } ==> (r.0 is AwaitingUnmount && (
        r.1 matches Action::DoUnmount { target: at } && at@ == target@)),
        *op matches LifecycleOp::Unmount { target, .. } ==> (r.0 is AwaitingUnmount && (
        r.1 matches Action::DoUnmount { target: at } && at@ == target@)),
{
    match op {
        LifecycleOp::Mount { fs, target, .. } => (
            Phase::AwaitingMount,
            Action::DoMount { fs: *fs, target: target.clone() },
        ),
        LifecycleOp::Remount { target, .. } => (
            Phase::AwaitingUnmount,
            Action::DoUnmount { target: target.clone() },
        ),
        LifecycleOp::Unmount { target, .. } => (
            Phase::AwaitingUnmount,
            Action::DoUnmount { target: target.clone() },
        ),
    }
}

/// Advances an operation by one reported outcome and says what to do next.
///
/// The transitions enforce the ordering and idempotency rules of the
/// lifecycle:
/// - a Remount treats "not mounted" as success for its unmount phase and
///   proceeds to mount, but aborts on any other unmount failure without
///   attempting the mount;
/// - a plain Unmount reports any unmount failure, "not mounted" included;
/// - the mount table is touched only after the OS operation succeeded, and
///   only when the operation asked for it;
/// - a table-edit failure after a successful mount is surfaced as the
///   result while the mount stays live: nothing is rolled back.
pub fn step(op: &LifecycleOp, phase: &Phase, ev: &Event) -> (r: (Phase, Option<Action>))
    requires
        phase_fits(*op, *phase),
        event_fits(*phase, *ev),
    ensures
        phase_fits(*op, r.0),
        r.0 is Finished <==> r.1 is None,
        !op_wants_table(*op) ==> (r.1 matches Some(a) ==> !(a is DoUpsert || a is DoRemove)),
        *op matches LifecycleOp::Remount { fs, target, .. } ==> ((*phase is AwaitingUnmount && (
        *ev is UnmountDone || *ev is UnmountNotMounted)) ==> (r.0 is AwaitingMount && (
        r.1 matches Some(a) && a matches Action::DoMount { fs: af, target: at } && af == fs && at@
            == target@))),
        *ev matches Event::UnmountFailed(e) ==> ((*phase is AwaitingUnmount && op is Remount)
            ==> r == (Phase::Finished(Err::<(), RamdiskError>(RamdiskError::UnmountFailed(e))),
        None::<Action>)),
        *op matches LifecycleOp::Unmount { target, drop_entry, table_path } ==> ((*phase
            is AwaitingUnmount && *ev is UnmountDone) ==> if drop_entry {
            r.0 is AwaitingTable && (r.1 matches Some(a) && a matches Action::DoRemove {
                table_path: ap,
                target: at,
            } && ap@ == table_path@ && at@ == target@)
        } else {
            r == (Phase::Finished(Ok::<(), RamdiskError>(())), None::<Action>)
        }),
        *ev matches Event::UnmountNotMounted(e) ==> ((*phase is AwaitingUnmount && op is Unmount)
            ==> r == (Phase::Finished(Err::<(), RamdiskError>(RamdiskError::UnmountFailed(e))),
        None::<Action>)),
        *ev matches Event::UnmountFailed(e) ==> ((*phase is AwaitingUnmount && op is Unmount)
            ==> r == (Phase::Finished(Err::<(), RamdiskError>(RamdiskError::UnmountFailed(e))),
        None::<Action>)),
        (*phase is AwaitingMount && *ev is MountDone && !op_wants_table(*op)) ==> r == (
            Phase::Finished(Ok::<(), RamdiskError>(())),
            None::<Action>,
        ),
        (*phase is AwaitingMount && *ev is MountDone && op_wants_table(*op)) ==> (r.0
            is AwaitingTable && (r.1 matches Some(a) && a matches Action::DoUpsert {
            table_path: ap,
            entry,
        } && ap@ == spec_table_path(*op) && entry.fs == spec_fs(*op) && entry.target@
            == encode_utf8(spec_target(*op)) && entry.options@ == default_options_bytes())),
        (*phase is AwaitingMount && *ev is MountTargetMissing) ==> r == (Phase::Finished(Err::<
            (),
            RamdiskError,
        >(RamdiskError::TargetNotFound)), None::<Action>),
        *ev matches Event::MountFailed(e) ==> (*phase is AwaitingMount ==> r == (Phase::Finished(
            Err::<(), RamdiskError>(RamdiskError::MountFailed(e)),
        ), None::<Action>)),
        (*phase is AwaitingTable && *ev is TableDone) ==> r == (Phase::Finished(Ok::<
            (),
            RamdiskError,
        >(())), None::<Action>),
        (*phase is AwaitingTable && *ev is TableReadFailed) ==> r == (Phase::Finished(Err::<
            (),
            RamdiskError,
        >(RamdiskError::TableReadFailed)), None::<Action>),
        (*phase is AwaitingTable && *ev is TableWriteFailed) ==> r == (Phase::Finished(Err::<
            (),
            RamdiskError,
        >(RamdiskError::TableWriteFailed)), None::<Action>),
{
    // The catch-all arms below answer op, phase and event combinations that
    // `phase_fits` and `event_fits` rule out; they keep the match total.
    match phase {
        Phase::AwaitingUnmount => match op {
            LifecycleOp::Remount { fs, target, .. } => match ev {
                Event::UnmountDone | Event::UnmountNotMounted(_) => (
                    Phase::AwaitingMount,
                    Some(Action::DoMount { fs: *fs, target: target.clone() }),
                ),
                Event::UnmountFailed(e) => (
                    Phase::Finished(Err(RamdiskError::UnmountFailed(*e))),
                    None,
                ),
                _ => (Phase::Finished(Ok(())), None),
            },
            LifecycleOp::Unmount { target, drop_entry, table_path } => match ev {
                Event::UnmountDone => if *drop_entry {
                    (
                        Phase::AwaitingTable,
                        Some(
                            Action::DoRemove {
                                table_path: table_path.clone(),
                                target: target.clone(),
                            },
                        ),
                    )
                } else {
                    (Phase::Finished(Ok(())), None)
                },
                Event::UnmountNotMounted(e) => (
                    Phase::Finished(Err(RamdiskError::UnmountFailed(*e))),
                    None,
                ),
                Event::UnmountFailed(e) => (
                    Phase::Finished(Err(RamdiskError::UnmountFailed(*e))),
                    None,
                ),
                _ => (Phase::Finished(Ok(())), None),
            },
            LifecycleOp::Mount { .. } => (Phase::Finished(Ok(())), None),
        },
        Phase::AwaitingMount => match ev {
            Event::MountDone => match op {
                LifecycleOp::Mount { fs, target, persist, table_path }
                | LifecycleOp::Remount { fs, target, persist, table_path } => if *persist {
                    let entry = MountTableEntry::with_default_options(
                        *fs,
                        path_bytes(target.as_str()),
                    );
                    (
                        Phase::AwaitingTable,
                        Some(Action::DoUpsert { table_path: table_path.clone(), entry }),
                    )
                } else {
                    (Phase::Finished(Ok(())), None)
                },
                LifecycleOp::Unmount { .. } => (Phase::Finished(Ok(())), None),
            },
            Event::MountTargetMissing => (
                Phase::Finished(Err(RamdiskError::TargetNotFound)),
                None,
            ),
            Event::MountFailed(e) => (Phase::Finished(Err(RamdiskError::MountFailed(*e))), None),
            _ => (Phase::Finished(Ok(())), None),
        },
        Phase::AwaitingTable => match ev {
            Event::TableDone => (Phase::Finished(Ok(())), None),
            Event::TableReadFailed => (Phase::Finished(Err(RamdiskError::TableReadFailed)), None),
            Event::TableWriteFailed => (
                Phase::Finished(Err(RamdiskError::TableWriteFailed)),
                None,
            ),
            _ => (Phase::Finished(Ok(())), None),
        },
        Phase::Finished(_) => (Phase::Finished(Ok(())), None),
    }
}

/// The filesystem kind of an operation; an Unmount has none and is given
/// `Tmpfs` vacuously (no contract speaks of it).
pub open spec fn spec_fs(op: LifecycleOp) -> MountType {
    match op {
        LifecycleOp::Mount { fs, .. } => fs,
        LifecycleOp::Remount { fs, .. } => fs,
        LifecycleOp::Unmount { .. } => MountType::Tmpfs,
    }
}

/// The target path of an operation.
pub open spec fn spec_target(op: LifecycleOp) -> Seq<char> {
    match op {
        LifecycleOp::Mount { target, .. } => target@,
        LifecycleOp::Remount { target, .. } => target@,
        LifecycleOp::Unmount { target, .. } => target@,
    }
}

/// The mount-table path of an operation.
pub open spec fn spec_table_path(op: LifecycleOp) -> Seq<char> {
    match op {
        LifecycleOp::Mount { table_path, .. } => table_path@,
        LifecycleOp::Remount { table_path, .. } => table_path@,
        LifecycleOp::Unmount { table_path, .. } => table_path@,
    }
}

/// The operation for the mount subcommand: mount `cfg.fs` at `cfg.target`
/// and, when `persist` asks for it, upsert the entry into the table at
/// `table_path`.
pub fn mount_op(cfg: MountConfig, persist: bool, table_path: String) -> (op: LifecycleOp)
    ensures
        op == (LifecycleOp::Mount { fs: cfg.fs, target: cfg.target, persist, table_path }),
{
    LifecycleOp::Mount { fs: cfg.fs, target: cfg.target, persist, table_path }
}

/// The operation for the remount subcommand: unmount `cfg.target`
/// (tolerating "not mounted"), mount `cfg.fs` there, and when `persist`
/// asks for it upsert the entry into the table at `table_path`.
pub fn remount_op(cfg: RemountConfig, persist: bool, table_path: String) -> (op: LifecycleOp)
    ensures
        op == (LifecycleOp::Remount { fs: cfg.fs, target: cfg.target, persist, table_path }),
{
    LifecycleOp::Remount { fs: cfg.fs, target: cfg.target, persist, table_path }
}

/// The operation for the unmount subcommand: unmount `cfg.target` and,
/// when `drop_entry` asks for it, remove the entry from the table at
/// `table_path`. Removal is an explicit opt-in: by default the persisted
/// entry stays in place.
pub fn unmount_op(cfg: UnmountConfig, drop_entry: bool, table_path: String) -> (op: LifecycleOp)
    ensures
        op == (LifecycleOp::Unmount { target: cfg.target, drop_entry, table_path }),
{
    LifecycleOp::Unmount { target: cfg.target, drop_entry, table_path }
}

} // verus!
