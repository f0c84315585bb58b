use vstd::prelude::*;

verus! {

/// Electrical mode of a GPIO pin.
#[derive(Clone, Copy, Debug, Eq)]
pub enum PinMode {
    Input,
    PushPull,
    OpenDrain,
}

impl PartialEq for PinMode {
    fn eq(&self, other: &PinMode) -> (r: bool) {
        match (self, other) {
            (PinMode::Input, PinMode::Input) => true,
            (PinMode::PushPull, PinMode::PushPull) => true,
            (PinMode::OpenDrain, PinMode::OpenDrain) => true,
            _ => false,
        }
    }
}

impl vstd::std_specs::cmp::PartialEqSpecImpl for PinMode {
    open spec fn obeys_eq_spec() -> bool {
        true
    }

    open spec fn eq_spec(&self, other: &PinMode) -> bool {
        *self == *other
    }
}

/// Pull resistor setting of a GPIO pin.
#[derive(Clone, Copy, Debug, Eq)]
pub enum PullMode {
    NoPull,
    PullUp,
    PullDown,
    WeakPullUp,
    WeakPullDown,
}

impl PartialEq for PullMode {
    fn eq(&self, other: &PullMode) -> (r: bool) {
        match (self, other) {
            (PullMode::NoPull, PullMode::NoPull) => true,
            (PullMode::PullUp, PullMode::PullUp) => true,
            (PullMode::PullDown, PullMode::PullDown) => true,
            (PullMode::WeakPullUp, PullMode::WeakPullUp) => true,
            (PullMode::WeakPullDown, PullMode::WeakPullDown) => true,
            _ => false,
        }
    }
}

impl vstd::std_specs::cmp::PartialEqSpecImpl for PullMode {
    open spec fn obeys_eq_spec() -> bool {
        true
    }

    open spec fn eq_spec(&self, other: &PullMode) -> bool {
        *self == *other
    }
}

/// A field on which two declarations for the same target disagree, with the
/// value already recorded and the value that was offered.
#[derive(Clone, Copy, Debug)]
pub enum FieldConflict {
    Mode(PinMode, PinMode),
    Level(bool, bool),
    PullMode(PullMode, PullMode),
    BitsPerSec(u32, u32),
}

/// A partial pin declaration: every field may be left unset.
#[derive(Clone, Copy, Debug)]
pub struct PinConfiguration {
    /// The input/output mode of the GPIO pin.
    pub mode: Option<PinMode>,
    /// The default/initial level of the pin (true means high).
    pub level: Option<bool>,
    /// Whether the pin has pullup/down resistor enabled.
    pub pull_mode: Option<PullMode>,
}

/// A partial SPI bus declaration.
#[derive(Clone, Copy, Debug)]
pub struct SpiConfiguration {
    pub bits_per_sec: Option<u32>,
}

/// Two optional values clash when both are set and differ.
pub open spec fn clash<T>(a: Option<T>, b: Option<T>) -> bool {
    a is Some && b is Some && a.unwrap() != b.unwrap()
}

/// Merging one optional field: a set value wins over an unset one.
pub open spec fn join<T>(a: Option<T>, b: Option<T>) -> Option<T> {
    if a is Some {
        a
    } else {
        b
    }
}

/// Folds `f2` into `f1`: an unset `f1` adopts `f2`, a set `f1` is kept, and two
/// set values that differ are refused, leaving `f1` as it was.
pub fn merge_field<T: Copy + PartialEq>(f1: &mut Option<T>, f2: Option<T>) -> (r: Result<(), ()>)
    requires
        vstd::laws_eq::obeys_concrete_eq::<T>(),
    ensures
        r is Err <==> clash(*old(f1), f2),
        r is Ok ==> *final(f1) == join(*old(f1), f2),
        r is Err ==> *final(f1) == *old(f1),
{
    proof {
        reveal(vstd::laws_eq::obeys_concrete_eq);
    }
    match (&*f1, f2) {
        (Some(v1), Some(v2)) => {
            if *v1 != v2 {
                return Err(());
            }
        },
        (None, _) => {
            *f1 = f2;
        },
        _ => {},
    }
    Ok(())
}

impl PinConfiguration {
    /// The declaration with no field set.
    pub open spec fn empty_spec() -> PinConfiguration {
        PinConfiguration { mode: None, level: None, pull_mode: None }
    }

    pub open spec fn is_unset(self) -> bool {
        self.mode is None && self.level is None && self.pull_mode is None
    }

    pub open spec fn compatible(self, other: PinConfiguration) -> bool {
        !clash(self.mode, other.mode) && !clash(self.level, other.level) && !clash(
            self.pull_mode,
            other.pull_mode,
        )
    }

    pub open spec fn merged(self, other: PinConfiguration) -> PinConfiguration {
        PinConfiguration {
            mode: join(self.mode, other.mode),
            level: join(self.level, other.level),
            pull_mode: join(self.pull_mode, other.pull_mode),
        }
    }

    /// The first clashing field, in the order mode, level, pull mode.
    pub open spec fn conflict_with(self, other: PinConfiguration) -> FieldConflict {
        if clash(self.mode, other.mode) {
            FieldConflict::Mode(self.mode.unwrap(), other.mode.unwrap())
        } else if clash(self.level, other.level) {
            FieldConflict::Level(self.level.unwrap(), other.level.unwrap())
        } else {
            FieldConflict::PullMode(self.pull_mode.unwrap(), other.pull_mode.unwrap())
        }
    }

    pub fn empty() -> (r: PinConfiguration)
        ensures
            r == PinConfiguration::empty_spec(),
    {
        PinConfiguration { mode: None, level: None, pull_mode: None }
    }

    pub fn is_empty(&self) -> (r: bool)
        ensures
            r == self.is_unset(),
    {
        self.mode.is_none() && self.level.is_none() && self.pull_mode.is_none()
    }

    /// Sometimes one configuration file specifies OpenDrain while leaving out the level, and
    /// another file specifies high level, while leaving out the mode.  This merges
    /// declarations from multiple files, as long as they are not conflicting (e.g. both PushPull
    /// and OpenDrain, or both high and low level). On a conflict `self` is left as it was.
    pub fn merge(&mut self, other: &PinConfiguration) -> (r: Result<(), FieldConflict>)
        ensures
            r is Ok <==> old(self).compatible(*other),
            r is Ok ==> *final(self) == old(self).merged(*other),
            r matches Err(c) ==> c == old(self).conflict_with(*other) && *final(self) == *old(
                self,
            ),
    {
        proof {
            reveal(vstd::laws_eq::obeys_concrete_eq);
        }
        let mut mode = self.mode;
        let mut level = self.level;
        let mut pull_mode = self.pull_mode;
        if merge_field(&mut mode, other.mode).is_err() {
            return Err(FieldConflict::Mode(self.mode.unwrap(), other.mode.unwrap()));
        }
        if merge_field(&mut level, other.level).is_err() {
            return Err(FieldConflict::Level(self.level.unwrap(), other.level.unwrap()));
        }
        if merge_field(&mut pull_mode, other.pull_mode).is_err() {
            return Err(FieldConflict::PullMode(self.pull_mode.unwrap(), other.pull_mode.unwrap()));
        }
        self.mode = mode;
        self.level = level;
        self.pull_mode = pull_mode;
        Ok(())
    }
}

impl SpiConfiguration {
    pub open spec fn empty_spec() -> SpiConfiguration {
        SpiConfiguration { bits_per_sec: None }
    }

    pub open spec fn is_unset(self) -> bool {
        self.bits_per_sec is None
    }

    pub open spec fn compatible(self, other: SpiConfiguration) -> bool {
        !clash(self.bits_per_sec, other.bits_per_sec)
    }

    pub open spec fn merged(self, other: SpiConfiguration) -> SpiConfiguration {
        SpiConfiguration { bits_per_sec: join(self.bits_per_sec, other.bits_per_sec) }
    }

    pub open spec fn conflict_with(self, other: SpiConfiguration) -> FieldConflict {
        FieldConflict::BitsPerSec(self.bits_per_sec.unwrap(), other.bits_per_sec.unwrap())
    }

    pub fn empty() -> (r: SpiConfiguration)
        ensures
            r == SpiConfiguration::empty_spec(),
    {
        SpiConfiguration { bits_per_sec: None }
    }

    pub fn is_empty(&self) -> (r: bool)
        ensures
            r == self.is_unset(),
    {
        self.bits_per_sec.is_none()
    }

    /// Merges another declaration of the same bus; on a conflict `self` is left as it was.
    pub fn merge(&mut self, other: &SpiConfiguration) -> (r: Result<(), FieldConflict>)
        ensures
            r is Ok <==> old(self).compatible(*other),
            r is Ok ==> *final(self) == old(self).merged(*other),
            r matches Err(c) ==> c == old(self).conflict_with(*other) && *final(self) == *old(
                self,
            ),
    {
        proof {
            reveal(vstd::laws_eq::obeys_concrete_eq);
        }
        if merge_field(&mut self.bits_per_sec, other.bits_per_sec).is_err() {
            return Err(
                FieldConflict::BitsPerSec(self.bits_per_sec.unwrap(), other.bits_per_sec.unwrap()),
            );
        }
        Ok(())
    }
}

/// A partial declaration whose fields are merged one by one.
pub trait PartialConf: Sized {
    spec fn unset(self) -> bool;

    spec fn fits(self, other: Self) -> bool;

    spec fn joined(self, other: Self) -> Self;

    spec fn clash_with(self, other: Self) -> FieldConflict;

    spec fn blank() -> Self;

    /// Two declarations merged into a third in either order give the same result.
    proof fn lemma_join_swap(a: Self, x: Self, y: Self)
        requires
            a.fits(x),
            a.joined(x).fits(y),
        ensures
            a.fits(y),
            a.joined(y).fits(x),
            a.joined(x).joined(y) == a.joined(y).joined(x),
    ;
}

impl PartialConf for PinConfiguration {
    open spec fn unset(self) -> bool {
        self.is_unset()
    }

    open spec fn fits(self, other: Self) -> bool {
        self.compatible(other)
    }

    open spec fn joined(self, other: Self) -> Self {
        self.merged(other)
    }

    open spec fn clash_with(self, other: Self) -> FieldConflict {
        self.conflict_with(other)
    }

    open spec fn blank() -> Self {
        PinConfiguration::empty_spec()
    }

    proof fn lemma_join_swap(a: Self, x: Self, y: Self) {
    }
}

impl PartialConf for SpiConfiguration {
    open spec fn unset(self) -> bool {
        self.is_unset()
    }

    open spec fn fits(self, other: Self) -> bool {
        self.compatible(other)
    }

    open spec fn joined(self, other: Self) -> Self {
        self.merged(other)
    }

    open spec fn clash_with(self, other: Self) -> FieldConflict {
        self.conflict_with(other)
    }

    open spec fn blank() -> Self {
        SpiConfiguration::empty_spec()
    }

    proof fn lemma_join_swap(a: Self, x: Self, y: Self) {
    }
}

/// Merging is commutative on compatible declarations.
pub proof fn lemma_merge_commutative(a: PinConfiguration, b: PinConfiguration)
    requires
        a.compatible(b),
    ensures
        b.compatible(a),
        a.merged(b) == b.merged(a),
{
}

/// Merging is associative on pairwise compatible declarations, and a pairwise
/// compatible triple merges without conflict in either grouping.
pub proof fn lemma_merge_associative(a: PinConfiguration, b: PinConfiguration, c: PinConfiguration)
    requires
        a.compatible(b),
        b.compatible(c),
        a.compatible(c),
    ensures
        a.merged(b).compatible(c),
        a.compatible(b.merged(c)),
        a.merged(b).merged(c) == a.merged(b.merged(c)),
{
}

} // verus!
