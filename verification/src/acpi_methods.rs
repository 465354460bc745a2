//! Interpreter bring-up protocol and the sleep-state power path.
//!
//! The definition-block interpreter itself is an outside service the
//! loader runs; what lives here are the decisions: in which order the
//! blocks are fed to it, when the namespace may be consulted, and
//! which register write a sleep request turns into.

use vstd::prelude::*;
use vstd::string::StringExecFns;
use crate::fadt::Fadt;
use crate::locator::TableSet;
use crate::system::{AmlError, Error};

verus! {

/// Where the interpreter bring-up stands.
#[derive(Clone, Copy, PartialEq, Eq, Structural, Debug)]
pub enum AmlState {
    Uninitialized,
    TablesLoaded,
    NamespaceBuilding,
    Ready,
}

/// The next piece of outside work the bring-up asks for.
#[derive(Clone, Copy, PartialEq, Eq, Structural, Debug)]
pub enum AmlStep {
    ParsePrimary,
    PrimaryAbsent,
    ParseSecondary(usize),
    InitializeObjects,
    Done,
}

/// Bring-up of the named-object namespace: the primary definition
/// block first, then every secondary block in table order, then one
/// object-initialization pass; only then is the namespace ready.  A
/// missing primary block degrades the namespace instead of failing.
#[derive(Clone, Copy, PartialEq, Eq, Debug)]
pub struct AmlBringUp {
    pub state: AmlState,
    pub has_primary: bool,
    pub ssdt_count: usize,
    pub next_ssdt: usize,
    pub degraded: bool,
}

/// The step the protocol asks for in a given state.
pub open spec fn spec_next_step(b: AmlBringUp) -> AmlStep {
    match b.state {
        AmlState::Uninitialized => AmlStep::Done,
        AmlState::TablesLoaded => if b.has_primary {
            AmlStep::ParsePrimary
        } else {
            AmlStep::PrimaryAbsent
        },
        AmlState::NamespaceBuilding => if b.next_ssdt < b.ssdt_count {
            AmlStep::ParseSecondary(b.next_ssdt)
        } else {
            AmlStep::InitializeObjects
        },
        AmlState::Ready => AmlStep::Done,
    }
}

impl AmlBringUp {
    /// Starts the bring-up over a validated table set: the tables are
    /// loaded, nothing is parsed yet.
    pub fn new(tables: &TableSet) -> (b: AmlBringUp)
        ensures
            b.state == AmlState::TablesLoaded,
            b.has_primary == (tables.dsdt is Some),
            b.ssdt_count == tables.ssdts@.len(),
            b.next_ssdt == 0,
            !b.degraded,
    {
        AmlBringUp {
            state: AmlState::TablesLoaded,
            has_primary: tables.dsdt.is_some(),
            ssdt_count: tables.ssdts.len(),
            next_ssdt: 0,
            degraded: false,
        }
    }

    /// What the loader has to do next.
    pub fn next_step(&self) -> (s: AmlStep)
        ensures
            s == spec_next_step(*self),
    {
        match self.state {
            AmlState::Uninitialized => AmlStep::Done,
            AmlState::TablesLoaded => if self.has_primary {
                AmlStep::ParsePrimary
            } else {
                AmlStep::PrimaryAbsent
            },
            AmlState::NamespaceBuilding => if self.next_ssdt < self.ssdt_count {
                AmlStep::ParseSecondary(self.next_ssdt)
            } else {
                AmlStep::InitializeObjects
            },
            AmlState::Ready => AmlStep::Done,
        }
    }

    /// The primary definition block went through the interpreter.
    pub fn primary_parsed(&mut self)
        requires
            old(self).state == AmlState::TablesLoaded,
            old(self).has_primary,
        ensures
            *final(self) == (AmlBringUp { state: AmlState::NamespaceBuilding, ..*old(self) }),
    {
        self.state = AmlState::NamespaceBuilding;
    }

    /// There is no primary definition block: the namespace is built
    /// degraded, from the secondary blocks alone.
    pub fn primary_absent(&mut self)
        requires
            old(self).state == AmlState::TablesLoaded,
            !old(self).has_primary,
        ensures
            *final(self) == (AmlBringUp {
                state: AmlState::NamespaceBuilding,
                degraded: true,
                ..*old(self)
            }),
    {
        self.state = AmlState::NamespaceBuilding;
        self.degraded = true;
    }

    /// One more secondary block went through the interpreter.
    pub fn secondary_parsed(&mut self)
        requires
            old(self).state == AmlState::NamespaceBuilding,
            old(self).next_ssdt < old(self).ssdt_count,
        ensures
            *final(self) == (AmlBringUp { next_ssdt: (old(self).next_ssdt + 1) as usize, ..*old(self) }),
    {
        self.next_ssdt = self.next_ssdt + 1;
    }

    /// The object-initialization pass ran: the namespace is ready.
    pub fn objects_initialized(&mut self)
        requires
            old(self).state == AmlState::NamespaceBuilding,
            old(self).next_ssdt == old(self).ssdt_count,
        ensures
            *final(self) == (AmlBringUp { state: AmlState::Ready, ..*old(self) }),
    {
        self.state = AmlState::Ready;
    }

    /// Whether named objects may be looked up.
    pub fn is_ready(&self) -> (r: bool)
        ensures
            r == (self.state == AmlState::Ready),
    {
        matches!(self.state, AmlState::Ready)
    }
}

/// The characters of the sleep-state object path for a state number.
pub open spec fn sleep_path_chars(mode: int) -> Seq<char> {
    seq!['\\', '_', 'S', digit_char(mode)]
}

/// The decimal digit character for a single-digit number.
pub open spec fn digit_char(d: int) -> char {
    if d == 0 {
        '0'
    } else if d == 1 {
        '1'
    } else if d == 2 {
        '2'
    } else if d == 3 {
        '3'
    } else if d == 4 {
        '4'
    } else if d == 5 {
        '5'
    } else if d == 6 {
        '6'
    } else if d == 7 {
        '7'
    } else if d == 8 {
        '8'
    } else {
        '9'
    }
}

/// Builds the rooted name path of the sleep-state object for a state
/// number, `\_S5` for soft-off.
pub fn sleep_object_path(mode: usize) -> (s: String)
    requires
        mode <= 9,
    ensures
        s@ == sleep_path_chars(mode as int),
{
    let s = match mode {
        0 => String::from_str("\\_S0"),
        1 => String::from_str("\\_S1"),
        2 => String::from_str("\\_S2"),
        3 => String::from_str("\\_S3"),
        4 => String::from_str("\\_S4"),
        5 => String::from_str("\\_S5"),
        6 => String::from_str("\\_S6"),
        7 => String::from_str("\\_S7"),
        8 => String::from_str("\\_S8"),
        _ => String::from_str("\\_S9"),
    };
    proof {
        reveal_strlit("\\_S0");
        reveal_strlit("\\_S1");
        reveal_strlit("\\_S2");
        reveal_strlit("\\_S3");
        reveal_strlit("\\_S4");
        reveal_strlit("\\_S5");
        reveal_strlit("\\_S6");
        reveal_strlit("\\_S7");
        reveal_strlit("\\_S8");
        reveal_strlit("\\_S9");
        assert(s@ =~= sleep_path_chars(mode as int));
    }
    s
}

/// The one register write that drives the hardware into a sleep
/// state.
#[derive(Clone, Copy, PartialEq, Eq, Structural, Debug)]
pub struct SleepVector {
    pub port: u16,
    pub value: u16,
}

/// Bit position of the sleep-type field in the control register.
pub const SLP_TYP_SHIFT: u16 = 10;

/// The sleep-enable bit of the control register.
pub const SLP_EN: u16 = 0x2000;

/// The control-register value that requests a sleep type: the type
/// bits in their field, with the sleep-enable bit set.
pub fn sleep_register_value(slp_typ: u8) -> (v: u16)
    requires
        slp_typ < 8,
    ensures
        v == ((slp_typ as u16) << SLP_TYP_SHIFT) | SLP_EN,
{
    let v = ((slp_typ as u16) << SLP_TYP_SHIFT) | SLP_EN;
    proof {
        assert(((slp_typ as u16) << 10u16) | 0x2000u16 <= 0xffffu16) by (bit_vector);
    }
    v
}

/// The direct mechanism: the fixed sleep pattern, all type bits with
/// sleep-enable, written to the power-management control port the
/// fixed description table reports.
pub fn shutdown_direct(fadt: &Fadt) -> (v: SleepVector)
    requires
        fadt.pm1a_control_block <= 0xffff,
    ensures
        v.port == fadt.pm1a_control_block as u16,
        v.value == (7u16 << SLP_TYP_SHIFT) | SLP_EN,
{
    let port = fadt.pm1a_control_block as u16;
    let value = sleep_register_value(7);
    SleepVector { port, value }
}

/// The interpreter-driven mechanism: turns the values of the named
/// sleep-state object into the register write.  Without a ready
/// namespace nothing is written; without the object nothing is
/// written either, and each failure is typed.
pub fn shutdown(ctx: &AmlBringUp, fadt: &Fadt, values: Option<(u64, u64)>) -> (r: Result<
    SleepVector,
    Error,
>)
    requires
        fadt.pm1a_control_block <= 0xffff,
    ensures
        ctx.state != AmlState::Ready ==> r == Err::<SleepVector, Error>(Error::NoAmlContext),
        ctx.state == AmlState::Ready ==> (match values {
            None => r == Err::<SleepVector, Error>(Error::AmlError(AmlError::ObjectNotFound)),
            Some(p) => r == Ok::<SleepVector, Error>(
                SleepVector {
                    port: fadt.pm1a_control_block as u16,
                    value: (((p.0 % 8) as u16) << SLP_TYP_SHIFT) | SLP_EN,
                },
            ),
        }),
{
    if !ctx.is_ready() {
        return Err(Error::NoAmlContext);
    }
    match values {
        None => Err(Error::AmlError(AmlError::ObjectNotFound)),
        Some((slp_typ_a, _slp_typ_b)) => {
            let typ = (slp_typ_a % 8) as u8;
            let value = sleep_register_value(typ);
            Ok(SleepVector { port: fadt.pm1a_control_block as u16, value })
        },
    }
}

/// Reserved wake path: no revision of this design ever wakes the
/// machine back up, so there is nothing to do and nothing can fail.
pub fn wakeup() -> (r: Result<(), Error>)
    ensures
        r is Ok,
{
    Ok(())
}

/// The configuration-space address a bus/device request reads: the
/// region base the locator reported, plus the register offset, when
/// that stays inside the address space.
pub fn pci_config_address(region_base: u64, offset: u16) -> (r: Option<u64>)
    ensures
        region_base + offset <= u64::MAX ==> r == Some((region_base + offset) as u64),
        region_base + offset > u64::MAX ==> r is None,
{
    if offset as u64 <= u64::MAX - region_base {
        Some(region_base + offset as u64)
    } else {
        None
    }
}

} // verus!
