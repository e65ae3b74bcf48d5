//! What goes into the engine and what comes out of it: the reading of one
//! process in a snapshot, and the record derived for it.

use vstd::prelude::*;
use crate::estimate::{estimate_total_runtime, total_runtime};
use crate::metrics::{class_of, label_of, progress, progress_of, remaining_millis, remaining_millis_of, Interactivity};
use crate::tracking::TrackingState;

verus! {

/// Priority shown for every process: the host offers none that is portable.
pub const PRIORITY: i32 = 1;

/// Lifecycle status of a process, as the host reports it.
#[derive(Clone, Copy, Debug, PartialEq, Eq, Structural)]
pub enum ProcessStatus {
    Running,
    Sleeping,
    Idle,
    Stopped,
    Zombie,
    Tracing,
    Unknown,
}

/// The text shown for a status.
pub open spec fn status_text_of(status: ProcessStatus) -> Seq<char> {
    match status {
        ProcessStatus::Running => "ejecutando"@,
        ProcessStatus::Sleeping => "dormido"@,
        ProcessStatus::Idle => "inactivo"@,
        ProcessStatus::Stopped => "detenido"@,
        ProcessStatus::Zombie => "zombie"@,
        ProcessStatus::Tracing => "trazando"@,
        ProcessStatus::Unknown => "desconocido"@,
    }
}

impl ProcessStatus {
    /// The text shown for this status.
    pub fn text(self) -> (text: String)
        ensures
            text@ == status_text_of(self),
    {
        match self {
            ProcessStatus::Running => String::from_str("ejecutando"),
            ProcessStatus::Sleeping => String::from_str("dormido"),
            ProcessStatus::Idle => String::from_str("inactivo"),
            ProcessStatus::Stopped => String::from_str("detenido"),
            ProcessStatus::Zombie => String::from_str("zombie"),
            ProcessStatus::Tracing => String::from_str("trazando"),
            ProcessStatus::Unknown => String::from_str("desconocido"),
        }
    }
}

/// The reading of one process in a snapshot.
#[derive(Clone, Debug, PartialEq, Eq)]
pub struct ProcessSnapshotEntry {
    /// Process identifier.
    pub pid: u32,
    /// Display name.
    pub name: String,
    /// Current CPU usage, in thousandths of a percent; above `FULL_LOAD` for a
    /// process that keeps several cores busy.
    pub cpu: u64,
    /// Resident memory, in KB.
    pub memory_kb: u64,
    /// Lifecycle status.
    pub status: ProcessStatus,
}

/// The record derived for one process in one poll.
#[derive(Clone, Debug, PartialEq, Eq)]
pub struct Proceso {
    /// Process identifier, in decimal.
    pub pid: String,
    /// Display name.
    pub nombre: String,
    /// Always `PRIORITY`.
    pub prioridad: i32,
    /// Current CPU usage, in thousandths of a percent.
    pub tiempo_cpu: u64,
    /// Resident memory, in KB.
    pub memoria: u64,
    /// Status text.
    pub estado: String,
    /// Interactivity label.
    pub interactividad: String,
    /// Progress against the budget, in thousandths of a percent.
    pub avance: u64,
    /// Wake count.
    pub iteraciones: u32,
    /// Estimated total runtime, in seconds.
    pub tiempo_total: u64,
    /// Estimated remaining time, in milliseconds.
    pub tiempo_restante: u64,
}

/// A record with its texts as sequences of characters.
pub struct ProcesoView {
    pub pid: Seq<char>,
    pub nombre: Seq<char>,
    pub prioridad: i32,
    pub tiempo_cpu: u64,
    pub memoria: u64,
    pub estado: Seq<char>,
    pub interactividad: Seq<char>,
    pub avance: u64,
    pub iteraciones: u32,
    pub tiempo_total: u64,
    pub tiempo_restante: u64,
}

impl View for Proceso {
    type V = ProcesoView;

    open spec fn view(&self) -> ProcesoView {
        ProcesoView {
            pid: self.pid@,
            nombre: self.nombre@,
            prioridad: self.prioridad,
            tiempo_cpu: self.tiempo_cpu,
            memoria: self.memoria,
            estado: self.estado@,
            interactividad: self.interactividad@,
            avance: self.avance,
            iteraciones: self.iteraciones,
            tiempo_total: self.tiempo_total,
            tiempo_restante: self.tiempo_restante,
        }
    }
}

/// The character that stands for a digit.
pub open spec fn digit_char(digit: int) -> char
    recommends
        0 <= digit < 10,
{
    if digit == 0 {
        '0'
    } else if digit == 1 {
        '1'
    } else if digit == 2 {
        '2'
    } else if digit == 3 {
        '3'
    } else if digit == 4 {
        '4'
    } else if digit == 5 {
        '5'
    } else if digit == 6 {
        '6'
    } else if digit == 7 {
        '7'
    } else if digit == 8 {
        '8'
    } else {
        '9'
    }
}

/// A number written in decimal, without leading zeros.
pub open spec fn decimal_text(n: nat) -> Seq<char>
    decreases n,
{
    if n < 10 {
        seq![digit_char(n as int)]
    } else {
        decimal_text(n / 10).push(digit_char((n % 10) as int))
    }
}

fn digit_text(digit: u32) -> (text: &'static str)
    requires
        digit < 10,
    ensures
        text@ == seq![digit_char(digit as int)],
{
    proof {
        reveal_strlit("0");
        reveal_strlit("1");
        reveal_strlit("2");
        reveal_strlit("3");
        reveal_strlit("4");
        reveal_strlit("5");
        reveal_strlit("6");
        reveal_strlit("7");
        reveal_strlit("8");
        reveal_strlit("9");
    }
    let text: &'static str = match digit {
        0 => "0",
        1 => "1",
        2 => "2",
        3 => "3",
        4 => "4",
        5 => "5",
        6 => "6",
        7 => "7",
        8 => "8",
        _ => "9",
    };
    assert(text@ =~= seq![digit_char(digit as int)]);
    text
}

/// Writes a process identifier in decimal.
pub fn decimal(n: u32) -> (text: String)
    ensures
        text@ == decimal_text(n as nat),
{
    let mut text: String = String::from_str(digit_text(n % 10));
    let mut rest: u32 = n / 10;
    while rest > 0
        invariant
            rest > 0 ==> decimal_text(n as nat) == decimal_text(rest as nat) + text@,
            rest == 0 ==> decimal_text(n as nat) == text@,
        decreases rest,
    {
        let head: String = String::from_str(digit_text(rest % 10));
        let ghost tail = text@;
        text = head.concat(text.as_str());
        proof {
            let digit = seq![digit_char((rest % 10) as int)];
            assert(text@ == digit + tail);
            if rest >= 10 {
                assert(decimal_text(rest as nat) == decimal_text((rest / 10) as nat) + digit);
                assert((decimal_text((rest / 10) as nat) + digit) + tail == decimal_text(
                    (rest / 10) as nat,
                ) + (digit + tail));
            } else {
                assert(decimal_text(rest as nat) == digit);
            }
        }
        rest = rest / 10;
    }
    text
}

/// The record of a process with reading `entry` whose tracking state, after
/// that reading was taken in, is `state`.
pub open spec fn record_of(entry: ProcessSnapshotEntry, state: TrackingState) -> ProcesoView {
    let total = total_runtime(entry.cpu, entry.memory_kb);
    ProcesoView {
        pid: decimal_text(entry.pid as nat),
        nombre: entry.name@,
        prioridad: PRIORITY,
        tiempo_cpu: entry.cpu,
        memoria: entry.memory_kb,
        estado: status_text_of(entry.status),
        interactividad: label_of(class_of(state.smoothed_cpu)),
        avance: progress_of(state.accumulated_cpu as int, total) as u64,
        iteraciones: state.wake_count,
        tiempo_total: total as u64,
        tiempo_restante: remaining_millis_of(state.accumulated_cpu as int, total) as u64,
    }
}

impl Proceso {
    /// Derives the record of a process from its reading and from its tracking
    /// state after that reading was taken in.
    pub fn describe(entry: &ProcessSnapshotEntry, state: TrackingState) -> (record: Proceso)
        ensures
            record@ == record_of(*entry, state),
    {
        let total: u64 = estimate_total_runtime(entry.cpu, entry.memory_kb);
        Proceso {
            pid: decimal(entry.pid),
            nombre: entry.name.clone(),
            prioridad: PRIORITY,
            tiempo_cpu: entry.cpu,
            memoria: entry.memory_kb,
            estado: entry.status.text(),
            interactividad: Interactivity::classify(state.smoothed_cpu).label(),
            avance: progress(state.accumulated_cpu, total),
            iteraciones: state.wake_count,
            tiempo_total: total,
            tiempo_restante: remaining_millis(state.accumulated_cpu, total),
        }
    }
}

} // verus!
