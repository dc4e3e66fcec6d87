//! Facility modules: bonus-granting attachments with a capacity limit.
//!
//! Each module contributes an additive speed bonus and an additive
//! productivity bonus. Bonuses are exact hundredths (a speed bonus of `20`
//! means +0.20). A facility tier carries a bounded loadout of modules;
//! exceeding the bound is a configuration error and leaves the loadout
//! unchanged.

use crate::error::Error;
use vstd::prelude::*;

verus! {

/// A bonus-granting attachment.
#[derive(Debug, Clone, Copy, PartialEq, Eq, Structural)]
pub enum Module {
    Speed1,
    Speed2,
    Speed3,
    Productivity1,
    Productivity2,
    Productivity3,
}

/// Additive speed bonus of one module, in hundredths.
pub open spec fn spec_speed_bonus(m: Module) -> int {
    match m {
        Module::Speed1 => 20,
        Module::Speed2 => 30,
        Module::Speed3 => 50,
        Module::Productivity1 => -5,
        Module::Productivity2 => -10,
        Module::Productivity3 => -15,
    }
}

/// Additive productivity bonus of one module, in hundredths.
pub open spec fn spec_productivity_bonus(m: Module) -> int {
    match m {
        Module::Speed1 => 0,
        Module::Speed2 => 0,
        Module::Speed3 => 0,
        Module::Productivity1 => 4,
        Module::Productivity2 => 6,
        Module::Productivity3 => 10,
    }
}

/// Short label of one module, as rendered inside a loadout.
pub open spec fn spec_module_label(m: Module) -> Seq<char> {
    match m {
        Module::Speed1 => "Sp1"@,
        Module::Speed2 => "Sp2"@,
        Module::Speed3 => "Sp3"@,
        Module::Productivity1 => "Pr1"@,
        Module::Productivity2 => "Pr2"@,
        Module::Productivity3 => "Pr3"@,
    }
}

/// Sum of the speed bonuses of a loadout, in hundredths.
pub open spec fn speed_bonus_sum(s: Seq<Module>) -> int
    decreases s.len(),
{
    if s.len() == 0 {
        0
    } else {
        speed_bonus_sum(s.drop_last()) + spec_speed_bonus(s.last())
    }
}

/// Sum of the productivity bonuses of a loadout, in hundredths.
pub open spec fn productivity_bonus_sum(s: Seq<Module>) -> int
    decreases s.len(),
{
    if s.len() == 0 {
        0
    } else {
        productivity_bonus_sum(s.drop_last()) + spec_productivity_bonus(s.last())
    }
}

/// The summed speed bonus of a loadout lies between -15 and +50 hundredths
/// per module.
pub proof fn lemma_speed_bonus_sum_bounds(s: Seq<Module>)
    ensures
        -15 * s.len() <= speed_bonus_sum(s) <= 50 * s.len(),
    decreases s.len(),
{
    if s.len() > 0 {
        lemma_speed_bonus_sum_bounds(s.drop_last());
    }
}

/// The summed productivity bonus of a loadout lies between 0 and +10
/// hundredths per module.
pub proof fn lemma_productivity_bonus_sum_bounds(s: Seq<Module>)
    ensures
        0 <= productivity_bonus_sum(s) <= 10 * s.len(),
    decreases s.len(),
{
    if s.len() > 0 {
        lemma_productivity_bonus_sum_bounds(s.drop_last());
    }
}

impl Module {
    /// Speed bonus in hundredths.
    pub fn speed_bonus(&self) -> (b: i64)
        ensures
            b == spec_speed_bonus(*self),
    {
        match self {
            Module::Speed1 => 20,
            Module::Speed2 => 30,
            Module::Speed3 => 50,
            Module::Productivity1 => -5,
            Module::Productivity2 => -10,
            Module::Productivity3 => -15,
        }
    }

    /// Productivity bonus in hundredths.
    pub fn productivity_bonus(&self) -> (b: i64)
        ensures
            b == spec_productivity_bonus(*self),
    {
        match self {
            Module::Speed1 => 0,
            Module::Speed2 => 0,
            Module::Speed3 => 0,
            Module::Productivity1 => 4,
            Module::Productivity2 => 6,
            Module::Productivity3 => 10,
        }
    }

    /// Short label, as rendered inside a loadout.
    pub fn label(&self) -> (r: &'static str)
        ensures
            r@ == spec_module_label(*self),
    {
        match self {
            Module::Speed1 => "Sp1",
            Module::Speed2 => "Sp2",
            Module::Speed3 => "Sp3",
            Module::Productivity1 => "Pr1",
            Module::Productivity2 => "Pr2",
            Module::Productivity3 => "Pr3",
        }
    }
}

/// A bounded module loadout with capacity `N`.
#[derive(Debug, Clone)]
pub struct ModuleList<const N: usize> {
    modules: Vec<Module>,
}

impl<const N: usize> View for ModuleList<N> {
    type V = Seq<Module>;

    closed spec fn view(&self) -> Seq<Module> {
        self.modules@
    }
}

impl<const N: usize> ModuleList<N> {
    /// The loadout never exceeds its capacity.
    pub open spec fn wf(self) -> bool {
        self@.len() <= N
    }

    /// An empty loadout.
    pub fn new() -> (l: ModuleList<N>)
        ensures
            l.wf(),
            l@ == Seq::<Module>::empty(),
    {
        ModuleList { modules: Vec::new() }
    }

    /// How many modules are loaded.
    pub fn len(&self) -> (n: usize)
        ensures
            n == self@.len(),
    {
        self.modules.len()
    }

    /// Append a module; fails without changing the loadout when the capacity
    /// is already reached.
    pub fn add_module(&mut self, module: Module) -> (r: Result<(), Error>)
        requires
            old(self).wf(),
        ensures
            final(self).wf(),
            old(self)@.len() < N ==> r is Ok && final(self)@ == old(self)@.push(module),
            old(self)@.len() >= N ==> (r matches Err(e) && e is Configuration) && final(self)@
                == old(self)@,
    {
        if self.modules.len() < N {
            self.modules.push(module);
            Ok(())
        } else {
            Err(Error::Configuration(String::from_str("module capacity reached")))
        }
    }

    /// Summed speed bonus of the loadout, in hundredths. The length bound
    /// only keeps the sum within the return type; real loadouts hold at most
    /// a handful of modules.
    pub fn speed_bonus(&self) -> (b: i64)
        requires
            self@.len() <= 0x1000_0000,
        ensures
            b == speed_bonus_sum(self@),
    {
        let mut acc: i64 = 0;
        let n = self.modules.len();
        for i in 0..n
            invariant
                n == self@.len() <= 0x1000_0000,
                acc == speed_bonus_sum(self@.take(i as int)),
                -15 * i <= acc <= 50 * i,
        {
            proof {
                assert(self@.take(i + 1).drop_last() =~= self@.take(i as int));
            }
            acc = acc + self.modules[i].speed_bonus();
        }
        proof {
            assert(self@.take(n as int) =~= self@);
        }
        acc
    }

    /// Summed productivity bonus of the loadout, in hundredths. The length
    /// bound only keeps the sum within the return type.
    pub fn productivity_bonus(&self) -> (b: i64)
        requires
            self@.len() <= 0x1000_0000,
        ensures
            b == productivity_bonus_sum(self@),
    {
        let mut acc: i64 = 0;
        let n = self.modules.len();
        for i in 0..n
            invariant
                n == self@.len() <= 0x1000_0000,
                acc == productivity_bonus_sum(self@.take(i as int)),
                0 <= acc <= 10 * i,
        {
            proof {
                assert(self@.take(i + 1).drop_last() =~= self@.take(i as int));
            }
            acc = acc + self.modules[i].productivity_bonus();
        }
        proof {
            assert(self@.take(n as int) =~= self@);
        }
        acc
    }

    /// Render the loadout: one label per filled slot, a dot per empty slot,
    /// in parentheses.
    pub fn label(&self) -> (r: String)
        ensures
            r@ == "("@ + spec_slots_label(self@, N as nat) + ")"@,
    {
        let mut s = String::from_str("(");
        for x in 0..N
            invariant
                s@ == "("@ + spec_slots_label(self@, x as nat),
        {
            if x < self.modules.len() {
                s.append(self.modules[x].label());
            } else {
                s.append(".");
            }
            proof {
                assert(s@ =~= "("@ + spec_slots_label(self@, (x + 1) as nat));
            }
        }
        s.append(")");
        proof {
            assert(s@ =~= "("@ + spec_slots_label(self@, N as nat) + ")"@);
        }
        s
    }
}

/// The slot-by-slot rendering of the first `cap` slots of a loadout.
pub open spec fn spec_slots_label(s: Seq<Module>, cap: nat) -> Seq<char>
    decreases cap,
{
    if cap == 0 {
        Seq::empty()
    } else {
        spec_slots_label(s, (cap - 1) as nat) + (if cap - 1 < s.len() {
            spec_module_label(s[cap - 1])
        } else {
            "."@
        })
    }
}

} // verus!
