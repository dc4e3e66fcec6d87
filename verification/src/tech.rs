//! The technology model: facilities, their speed and productivity, and the
//! per-run technology status.
//!
//! A facility is a closed set of variants. Each exposes a display name, a
//! speed (crafts per second multiplier), a productivity multiplier, and —
//! for module-bearing variants — a bounded module loadout. Effective speed
//! is `base_speed * (1 + sum of speed bonuses)`; effective productivity is
//! `1 + sum of productivity bonuses`. Adding a module to a full or
//! module-less facility is a configuration error.
//!
//! Base speeds and bonuses are exact hundredths, so every effective rate is
//! the canonical form of an integer pair over 100 or 10000.

use crate::error::Error;
use crate::module::{
    lemma_productivity_bonus_sum_bounds, lemma_speed_bonus_sum_bounds, productivity_bonus_sum,
    speed_bonus_sum, Module, ModuleList,
};
use crate::product::{CraftType, Product};
use crate::text::str_eq;
use crate::rat::{canon, frac_int, lemma_canon_pos, Frac, Ratio};
use vstd::prelude::*;

verus! {

/// An extraction facility.
#[derive(Debug, Clone, Copy, PartialEq, Eq, Structural)]
pub enum Miner {
    Burner,
    Electric,
}

/// A smelting facility.
#[derive(Debug, Clone, Copy, PartialEq, Eq, Structural)]
pub enum Furnace {
    Stone,
    Steel,
    Electric,
}

/// An assembly facility; the blue and green tiers carry module loadouts.
#[derive(Debug, Clone)]
pub enum Assembler {
    Basic,
    Blue { modules: ModuleList<2> },
    Green { modules: ModuleList<4> },
}

/// A facility with a fixed name, speed, and productivity and no module
/// support (chemical plants, rocket silos, launch pads).
#[derive(Debug, Clone)]
pub struct SimpleCraftTech {
    pub name: String,
    pub speed: Ratio,
    pub productivity: Ratio,
}

impl SimpleCraftTech {
    /// A fixed-rate facility. The productivity must be positive; the speed
    /// may be zero, in which case resolving an item on this facility fails
    /// with a zero-speed error.
    pub fn new(name: &str, speed: Ratio, productivity: Ratio) -> (s: SimpleCraftTech)
        requires
            speed.wf(),
            productivity.wf(),
            productivity@.num >= 1,
        ensures
            s.name@ == name@,
            s.speed == speed,
            s.productivity == productivity,
    {
        SimpleCraftTech { name: name.to_owned(), speed, productivity }
    }
}

/// Any crafting facility: the closed tagged union of the variants.
#[derive(Debug, Clone)]
pub enum CraftTech {
    Miner(Miner),
    Furnace(Furnace),
    Assembler(Assembler),
    Simple(SimpleCraftTech),
}

/// Base speed of a miner, in hundredths of a craft per second.
pub open spec fn miner_speed_cents(m: Miner) -> int {
    match m {
        Miner::Burner => 25,
        Miner::Electric => 50,
    }
}

/// Base speed of a furnace, in hundredths.
pub open spec fn furnace_speed_cents(f: Furnace) -> int {
    match f {
        Furnace::Stone => 100,
        Furnace::Steel => 200,
        Furnace::Electric => 200,
    }
}

/// Base speed of an assembler tier, in hundredths.
pub open spec fn assembler_base_cents(a: Assembler) -> int {
    match a {
        Assembler::Basic => 50,
        Assembler::Blue { .. } => 75,
        Assembler::Green { .. } => 125,
    }
}

/// Speed multiplier of an assembler, in hundredths: `100` plus the speed
/// bonuses of the loadout. The basic tier has no module slots, so its
/// bonus sum is empty and its multiplier exactly `100`.
pub open spec fn assembler_mult_cents(a: Assembler) -> int {
    match a {
        Assembler::Basic => 100,
        Assembler::Blue { modules } => 100 + speed_bonus_sum(modules@),
        Assembler::Green { modules } => 100 + speed_bonus_sum(modules@),
    }
}

/// Productivity of an assembler, in hundredths.
pub open spec fn assembler_productivity_cents(a: Assembler) -> int {
    match a {
        Assembler::Basic => 100,
        Assembler::Blue { modules } => 100 + productivity_bonus_sum(modules@),
        Assembler::Green { modules } => 100 + productivity_bonus_sum(modules@),
    }
}

pub open spec fn assembler_wf(a: Assembler) -> bool {
    match a {
        Assembler::Basic => true,
        Assembler::Blue { modules } => modules.wf(),
        Assembler::Green { modules } => modules.wf(),
    }
}

/// Effective speed of an assembler: base times multiplier.
pub open spec fn spec_assembler_speed(a: Assembler) -> Frac {
    canon(Frac { num: assembler_base_cents(a) * assembler_mult_cents(a), den: 10000 })
}

/// A facility's well-formedness: loadouts within capacity, rates canonical,
/// productivity positive.
pub open spec fn tech_wf(t: CraftTech) -> bool {
    match t {
        CraftTech::Miner(_) => true,
        CraftTech::Furnace(_) => true,
        CraftTech::Assembler(a) => assembler_wf(a),
        CraftTech::Simple(s) => s.speed.wf() && s.productivity.wf() && s.productivity@.num >= 1,
    }
}

/// Effective speed of any facility.
pub open spec fn spec_tech_speed(t: CraftTech) -> Frac {
    match t {
        CraftTech::Miner(m) => canon(Frac { num: miner_speed_cents(m), den: 100 }),
        CraftTech::Furnace(f) => canon(Frac { num: furnace_speed_cents(f), den: 100 }),
        CraftTech::Assembler(a) => spec_assembler_speed(a),
        CraftTech::Simple(s) => s.speed@,
    }
}

/// Effective productivity of any facility.
pub open spec fn spec_tech_productivity(t: CraftTech) -> Frac {
    match t {
        CraftTech::Miner(_) => frac_int(1),
        CraftTech::Furnace(_) => frac_int(1),
        CraftTech::Assembler(a) => canon(Frac { num: assembler_productivity_cents(a), den: 100 }),
        CraftTech::Simple(s) => s.productivity@,
    }
}

/// Display name of any facility.
pub open spec fn spec_tech_name(t: CraftTech) -> Seq<char> {
    match t {
        CraftTech::Miner(Miner::Burner) => "Burner Miner"@,
        CraftTech::Miner(Miner::Electric) => "Electric Miner"@,
        CraftTech::Furnace(Furnace::Stone) => "Stone Furnace"@,
        CraftTech::Furnace(Furnace::Steel) => "Steel Furnace"@,
        CraftTech::Furnace(Furnace::Electric) => "Electric Furnace"@,
        CraftTech::Assembler(Assembler::Basic) => "Basic Assembler"@,
        CraftTech::Assembler(Assembler::Blue { modules }) => "Blue Assembler "@ + "("@
            + crate::module::spec_slots_label(modules@, 2) + ")"@,
        CraftTech::Assembler(Assembler::Green { modules }) => "Green Assembler "@ + "("@
            + crate::module::spec_slots_label(modules@, 4) + ")"@,
        CraftTech::Simple(s) => s.name@,
    }
}

impl Assembler {
    /// A blue-tier assembler with an empty loadout.
    pub fn blue() -> (a: Assembler)
        ensures
            assembler_wf(a),
            a matches Assembler::Blue { modules } && modules@ == Seq::<Module>::empty(),
    {
        Assembler::Blue { modules: ModuleList::new() }
    }

    /// A green-tier assembler with an empty loadout.
    pub fn green() -> (a: Assembler)
        ensures
            assembler_wf(a),
            a matches Assembler::Green { modules } && modules@ == Seq::<Module>::empty(),
    {
        Assembler::Green { modules: ModuleList::new() }
    }
}

impl CraftTech {
    /// Effective speed: exact, canonical. Only a fixed-rate facility built
    /// with speed zero can yield zero; the resolver rejects such a facility
    /// when an item needs it.
    pub fn speed(&self) -> (r: Ratio)
        requires
            tech_wf(*self),
        ensures
            r.wf(),
            r@ == spec_tech_speed(*self),
    {
        match self {
            CraftTech::Miner(m) => {
                let cents: u32 = match m {
                    Miner::Burner => 25,
                    Miner::Electric => 50,
                };
                let r = Ratio::new(cents, 100);
                r.unwrap()
            },
            CraftTech::Furnace(f) => {
                let cents: u32 = match f {
                    Furnace::Stone => 100,
                    Furnace::Steel => 200,
                    Furnace::Electric => 200,
                };
                let r = Ratio::new(cents, 100);
                r.unwrap()
            },
            CraftTech::Assembler(a) => {
                let base: u32 = match a {
                    Assembler::Basic => 50,
                    Assembler::Blue { .. } => 75,
                    Assembler::Green { .. } => 125,
                };
                let mult: u32 = match a {
                    Assembler::Basic => 100,
                    Assembler::Blue { modules } => {
                        proof {
                            lemma_speed_bonus_sum_bounds(modules@);
                        }
                        (100 + modules.speed_bonus()) as u32
                    },
                    Assembler::Green { modules } => {
                        proof {
                            lemma_speed_bonus_sum_bounds(modules@);
                        }
                        (100 + modules.speed_bonus()) as u32
                    },
                };
                let r = Ratio::new(base * mult, 10000);
                r.unwrap()
            },
            CraftTech::Simple(s) => s.speed,
        }
    }

    /// Effective productivity: exact, canonical, always positive.
    pub fn productivity(&self) -> (r: Ratio)
        requires
            tech_wf(*self),
        ensures
            r.wf(),
            r@ == spec_tech_productivity(*self),
            r@.num >= 1,
    {
        match self {
            CraftTech::Miner(_) => Ratio::one(),
            CraftTech::Furnace(_) => Ratio::one(),
            CraftTech::Assembler(a) => {
                let cents: u32 = match a {
                    Assembler::Basic => 100,
                    Assembler::Blue { modules } => {
                        proof {
                            lemma_productivity_bonus_sum_bounds(modules@);
                        }
                        (100 + modules.productivity_bonus()) as u32
                    },
                    Assembler::Green { modules } => {
                        proof {
                            lemma_productivity_bonus_sum_bounds(modules@);
                        }
                        (100 + modules.productivity_bonus()) as u32
                    },
                };
                proof {
                    lemma_canon_pos(Frac { num: cents as int, den: 100 });
                }
                let r = Ratio::new(cents, 100);
                r.unwrap()
            },
            CraftTech::Simple(s) => s.productivity,
        }
    }

    /// Display name.
    pub fn name(&self) -> (r: String)
        ensures
            r@ == spec_tech_name(*self),
    {
        match self {
            CraftTech::Miner(Miner::Burner) => String::from_str("Burner Miner"),
            CraftTech::Miner(Miner::Electric) => String::from_str("Electric Miner"),
            CraftTech::Furnace(Furnace::Stone) => String::from_str("Stone Furnace"),
            CraftTech::Furnace(Furnace::Steel) => String::from_str("Steel Furnace"),
            CraftTech::Furnace(Furnace::Electric) => String::from_str("Electric Furnace"),
            CraftTech::Assembler(Assembler::Basic) => String::from_str("Basic Assembler"),
            CraftTech::Assembler(Assembler::Blue { modules }) => {
                let mut s = String::from_str("Blue Assembler ");
                let label = modules.label();
                s.append(label.as_str());
                s
            },
            CraftTech::Assembler(Assembler::Green { modules }) => {
                let mut s = String::from_str("Green Assembler ");
                let label = modules.label();
                s.append(label.as_str());
                s
            },
            CraftTech::Simple(s) => s.name.clone(),
        }
    }

    /// Try to attach a module. Only blue and green assemblers with free slots
    /// accept one; in every other case the facility is left unchanged and a
    /// configuration error is returned.
    pub fn add_module(&mut self, module: Module) -> (r: Result<(), Error>)
        requires
            tech_wf(*old(self)),
        ensures
            tech_wf(*final(self)),
            tech_variant_eq(*old(self), *final(self)),
            r is Ok <==> tech_loadout(*old(self)).len() < tech_capacity(*old(self)),
            r is Err ==> (r matches Err(e) && e is Configuration),
            tech_loadout(*final(self)) == if r is Ok {
                tech_loadout(*old(self)).push(module)
            } else {
                tech_loadout(*old(self))
            },
    {
        match self {
            CraftTech::Assembler(Assembler::Blue { modules }) => modules.add_module(module),
            CraftTech::Assembler(Assembler::Green { modules }) => modules.add_module(module),
            _ => Err(
                Error::Configuration(String::from_str("this facility does not take modules")),
            ),
        }
    }
}

/// The module loadout of a facility; empty for facilities without module
/// support.
pub open spec fn tech_loadout(t: CraftTech) -> Seq<Module> {
    match t {
        CraftTech::Assembler(Assembler::Blue { modules }) => modules@,
        CraftTech::Assembler(Assembler::Green { modules }) => modules@,
        _ => Seq::empty(),
    }
}

/// How many modules a facility can hold.
pub open spec fn tech_capacity(t: CraftTech) -> int {
    match t {
        CraftTech::Assembler(Assembler::Blue { .. }) => 2,
        CraftTech::Assembler(Assembler::Green { .. }) => 4,
        _ => 0,
    }
}

/// The key/facility pairs of an override list, keys by value.
pub open spec fn ov_view(s: Seq<(String, CraftTech)>) -> Seq<(Seq<char>, CraftTech)> {
    Seq::new(s.len(), |i: int| (s[i].0@, s[i].1))
}

/// Index of the first override for `id`, or the length if there is none.
pub open spec fn ov_index(s: Seq<(Seq<char>, CraftTech)>, id: Seq<char>) -> int
    decreases s.len(),
{
    if s.len() == 0 {
        0
    } else if s[0].0 == id {
        0
    } else {
        1 + ov_index(s.skip(1), id)
    }
}

pub proof fn lemma_ov_index(s: Seq<(Seq<char>, CraftTech)>, id: Seq<char>)
    ensures
        0 <= ov_index(s, id) <= s.len(),
        forall|i: int| 0 <= i < ov_index(s, id) ==> s[i].0 != id,
        ov_index(s, id) < s.len() ==> s[ov_index(s, id)].0 == id,
    decreases s.len(),
{
    if s.len() > 0 && s[0].0 != id {
        lemma_ov_index(s.skip(1), id);
        assert forall|i: int| 0 <= i < ov_index(s, id) implies s[i].0 != id by {
            if i > 0 {
                assert(s[i] == s.skip(1)[i - 1]);
            }
        }
        if ov_index(s, id) < s.len() {
            assert(s[ov_index(s, id)] == s.skip(1)[ov_index(s.skip(1), id)]);
        }
    }
}

pub proof fn lemma_ov_index_unique(s: Seq<(Seq<char>, CraftTech)>, id: Seq<char>, k: int)
    requires
        0 <= k <= s.len(),
        forall|i: int| 0 <= i < k ==> s[i].0 != id,
        k < s.len() ==> s[k].0 == id,
    ensures
        ov_index(s, id) == k,
    decreases s.len(),
{
    if s.len() > 0 && s[0].0 != id {
        assert forall|i: int| 0 <= i < k - 1 implies s.skip(1)[i].0 != id by {
            assert(s.skip(1)[i] == s[i + 1]);
        }
        if k - 1 < s.skip(1).len() {
            assert(s.skip(1)[k - 1] == s[k]);
        }
        lemma_ov_index_unique(s.skip(1), id, k - 1);
    }
}

/// Record an override for `id`: replace the existing entry, else append.
pub open spec fn ov_upsert(
    s: Seq<(Seq<char>, CraftTech)>,
    id: Seq<char>,
    t: CraftTech,
) -> Seq<(Seq<char>, CraftTech)> {
    let k = ov_index(s, id);
    if k == s.len() {
        s.push((id, t))
    } else {
        s.update(k, (id, t))
    }
}

/// The technology available to one run: a default facility per craft type,
/// plus per-item overrides.
#[derive(Debug)]
pub struct CraftTechStatus {
    pub miner: CraftTech,
    pub furnace: CraftTech,
    pub assembler: CraftTech,
    pub chemical: CraftTech,
    pub silo: CraftTech,
    pub override_by_product: Vec<(String, CraftTech)>,
}

impl CraftTechStatus {
    /// Every facility well formed; no item overridden twice.
    pub open spec fn wf(self) -> bool {
        &&& tech_wf(self.miner)
        &&& tech_wf(self.furnace)
        &&& tech_wf(self.assembler)
        &&& tech_wf(self.chemical)
        &&& tech_wf(self.silo)
        &&& forall|i: int|
            0 <= i < self.override_by_product@.len() ==> tech_wf(
                (#[trigger] ov_view(self.override_by_product@)[i]).1,
            )
        &&& forall|i: int, j: int|
            0 <= i < j < self.override_by_product@.len() ==> ov_view(self.override_by_product@)[i].0
                != ov_view(self.override_by_product@)[j].0
    }

    /// The default facility for a craft type. Launches use the silo.
    pub open spec fn spec_default_tech(self, ct: CraftType) -> CraftTech {
        match ct {
            CraftType::Ore => self.miner,
            CraftType::Smelt => self.furnace,
            CraftType::Assemble => self.assembler,
            CraftType::Chemical => self.chemical,
            CraftType::Silo => self.silo,
            CraftType::Launch => self.silo,
        }
    }

    /// The facility override for `id`, if one was recorded.
    pub open spec fn spec_override_of(self, id: Seq<char>) -> Option<CraftTech> {
        let ovs = ov_view(self.override_by_product@);
        let k = ov_index(ovs, id);
        if k < ovs.len() {
            Some(ovs[k].1)
        } else {
            None
        }
    }

    /// Override if present, else the default for the craft type.
    pub open spec fn spec_tech_for(self, id: Seq<char>, ct: CraftType) -> CraftTech {
        match self.spec_override_of(id) {
            Some(t) => t,
            None => self.spec_default_tech(ct),
        }
    }

    /// A fresh status: the given defaults, fixed chemical plant and rocket
    /// silo facilities of speed and productivity one, and no overrides.
    pub fn new(miner: Miner, furnace: Furnace, assembler: Assembler) -> (s: CraftTechStatus)
        requires
            assembler_wf(assembler),
        ensures
            s.wf(),
            s.miner == CraftTech::Miner(miner),
            s.furnace == CraftTech::Furnace(furnace),
            s.assembler == CraftTech::Assembler(assembler),
            (s.chemical matches CraftTech::Simple(c) && c.name@ == "Chemical plant"@ && c.speed@
                == frac_int(1) && c.productivity@ == frac_int(1)),
            (s.silo matches CraftTech::Simple(c) && c.name@ == "Rocket Silo"@ && c.speed@
                == frac_int(1) && c.productivity@ == frac_int(1)),
            s.override_by_product@.len() == 0,
    {
        CraftTechStatus {
            miner: CraftTech::Miner(miner),
            furnace: CraftTech::Furnace(furnace),
            assembler: CraftTech::Assembler(assembler),
            chemical: CraftTech::Simple(
                SimpleCraftTech {
                    name: String::from_str("Chemical plant"),
                    speed: Ratio::one(),
                    productivity: Ratio::one(),
                },
            ),
            silo: CraftTech::Simple(
                SimpleCraftTech {
                    name: String::from_str("Rocket Silo"),
                    speed: Ratio::one(),
                    productivity: Ratio::one(),
                },
            ),
            override_by_product: Vec::new(),
        }
    }

    pub fn miner_speed(&self) -> (r: Ratio)
        requires
            self.wf(),
        ensures
            r.wf(),
            r@ == spec_tech_speed(self.miner),
    {
        self.miner.speed()
    }

    pub fn furnace_speed(&self) -> (r: Ratio)
        requires
            self.wf(),
        ensures
            r.wf(),
            r@ == spec_tech_speed(self.furnace),
    {
        self.furnace.speed()
    }

    pub fn assembler_speed(&self) -> (r: Ratio)
        requires
            self.wf(),
        ensures
            r.wf(),
            r@ == spec_tech_speed(self.assembler),
    {
        self.assembler.speed()
    }

    pub fn chemical_speed(&self) -> (r: Ratio)
        requires
            self.wf(),
        ensures
            r.wf(),
            r@ == spec_tech_speed(self.chemical),
    {
        self.chemical.speed()
    }

    pub fn silo_speed(&self) -> (r: Ratio)
        requires
            self.wf(),
        ensures
            r.wf(),
            r@ == spec_tech_speed(self.silo),
    {
        self.silo.speed()
    }

    /// Record a per-item override; a later record for an item replaces an
    /// earlier one.
    pub fn add_override(&mut self, product_id: &str, tech: CraftTech) -> (r: ())
        requires
            old(self).wf(),
            tech_wf(tech),
        ensures
            final(self).wf(),
            ov_view(final(self).override_by_product@) == ov_upsert(
                ov_view(old(self).override_by_product@),
                product_id@,
                tech,
            ),
            final(self).miner == old(self).miner,
            final(self).furnace == old(self).furnace,
            final(self).assembler == old(self).assembler,
            final(self).chemical == old(self).chemical,
            final(self).silo == old(self).silo,
    {
        let ghost s = ov_view(self.override_by_product@);
        let n = self.override_by_product.len();
        let mut j: usize = 0;
        while j < n
            invariant
                0 <= j <= n == self.override_by_product@.len(),
                *self == *old(self),
                old(self).wf(),
                tech_wf(tech),
                s == ov_view(self.override_by_product@),
                forall|i: int| 0 <= i < j ==> s[i].0 != product_id@,
            decreases n - j,
        {
            if str_eq(self.override_by_product[j].0.as_str(), product_id) {
                proof {
                    lemma_ov_index_unique(s, product_id@, j as int);
                }
                self.override_by_product[j] = (product_id.to_owned(), tech);
                proof {
                    assert(ov_view(self.override_by_product@) =~= s.update(
                        j as int,
                        (product_id@, tech),
                    ));
                    lemma_ov_upsert_wf(*old(self), s, product_id@, tech, j as int);
                }
                return ;
            }
            j = j + 1;
        }
        proof {
            lemma_ov_index_unique(s, product_id@, n as int);
        }
        self.override_by_product.push((product_id.to_owned(), tech));
        proof {
            assert(ov_view(self.override_by_product@) =~= s.push((product_id@, tech)));
            lemma_ov_upsert_wf(*old(self), s, product_id@, tech, n as int);
        }
    }

    /// The facility that will craft `product`: its override if present, else
    /// the default for its craft type.
    pub fn tech_for<'a>(&'a self, product: &Product) -> (r: &'a CraftTech)
        requires
            self.wf(),
        ensures
            *r == self.spec_tech_for(product.id@, product.craft_type),
            tech_wf(*r),
    {
        let ghost s = ov_view(self.override_by_product@);
        let n = self.override_by_product.len();
        let mut j: usize = 0;
        while j < n
            invariant
                0 <= j <= n == self.override_by_product@.len(),
                self.wf(),
                s == ov_view(self.override_by_product@),
                forall|i: int| 0 <= i < j ==> s[i].0 != product.id@,
            decreases n - j,
        {
            if str_eq(self.override_by_product[j].0.as_str(), product.id.as_str()) {
                proof {
                    lemma_ov_index_unique(s, product.id@, j as int);
                }
                return &self.override_by_product[j].1;
            }
            j = j + 1;
        }
        proof {
            lemma_ov_index_unique(s, product.id@, n as int);
        }
        self.default_tech_for(product)
    }

    fn default_tech_for<'a>(&'a self, product: &Product) -> (r: &'a CraftTech)
        requires
            self.wf(),
        ensures
            *r == self.spec_default_tech(product.craft_type),
            tech_wf(*r),
    {
        match product.craft_type {
            CraftType::Ore => &self.miner,
            CraftType::Smelt => &self.furnace,
            CraftType::Assemble => &self.assembler,
            CraftType::Chemical => &self.chemical,
            CraftType::Silo => &self.silo,
            CraftType::Launch => &self.silo,
        }
    }
}

/// Upserting an override keeps the status well formed.
proof fn lemma_ov_upsert_wf(
    old_s: CraftTechStatus,
    s: Seq<(Seq<char>, CraftTech)>,
    id: Seq<char>,
    t: CraftTech,
    k: int,
)
    requires
        old_s.wf(),
        s == ov_view(old_s.override_by_product@),
        tech_wf(t),
        ov_index(s, id) == k,
        k < s.len() ==> s[k].0 == id,
    ensures
        forall|i: int| 0 <= i < ov_upsert(s, id, t).len() ==> tech_wf((#[trigger] ov_upsert(s, id, t)[i]).1),
        forall|i: int, j: int|
            0 <= i < j < ov_upsert(s, id, t).len() ==> ov_upsert(s, id, t)[i].0 != ov_upsert(
                s,
                id,
                t,
            )[j].0,
{
    lemma_ov_index(s, id);
    let u = ov_upsert(s, id, t);
    if k == s.len() {
        assert forall|i: int, j: int| 0 <= i < j < u.len() implies u[i].0 != u[j].0 by {
            if j < s.len() {
            } else {
                assert(u[i].0 == s[i].0 && u[j].0 == id);
            }
        }
    } else {
        assert forall|i: int, j: int| 0 <= i < j < u.len() implies u[i].0 != u[j].0 by {
            assert(u[i].0 == s[i].0 && u[j].0 == s[j].0);
        }
    }
}

/// The speed used for labeling an edge: the default facility's for the craft
/// type, with launches pinned at one.
pub open spec fn spec_best_craft_speed(status: CraftTechStatus, ct: CraftType) -> Frac {
    match ct {
        CraftType::Ore => spec_tech_speed(status.miner),
        CraftType::Smelt => spec_tech_speed(status.furnace),
        CraftType::Assemble => spec_tech_speed(status.assembler),
        CraftType::Chemical => spec_tech_speed(status.chemical),
        CraftType::Silo => spec_tech_speed(status.silo),
        CraftType::Launch => frac_int(1),
    }
}

impl CraftType {
    /// The speed of the default facility for this craft type; launches count
    /// as speed one.
    pub fn best_craft_speed(&self, tech_status: &CraftTechStatus) -> (r: Ratio)
        requires
            tech_status.wf(),
        ensures
            r.wf(),
            r@ == spec_best_craft_speed(*tech_status, *self),
    {
        match self {
            CraftType::Ore => tech_status.miner_speed(),
            CraftType::Smelt => tech_status.furnace_speed(),
            CraftType::Assemble => tech_status.assembler_speed(),
            CraftType::Chemical => tech_status.chemical_speed(),
            CraftType::Silo => tech_status.silo_speed(),
            CraftType::Launch => Ratio::one(),
        }
    }

    /// The default facility for this craft type.
    pub fn craft_tech<'a>(&self, tech_status: &'a CraftTechStatus) -> (r: &'a CraftTech)
        requires
            tech_status.wf(),
        ensures
            *r == tech_status.spec_default_tech(*self),
            tech_wf(*r),
    {
        match self {
            CraftType::Ore => &tech_status.miner,
            CraftType::Smelt => &tech_status.furnace,
            CraftType::Assemble => &tech_status.assembler,
            CraftType::Chemical => &tech_status.chemical,
            CraftType::Silo => &tech_status.silo,
            CraftType::Launch => &tech_status.silo,
        }
    }
}

/// Same facility, apart from the module loadout.
pub open spec fn tech_variant_eq(a: CraftTech, b: CraftTech) -> bool {
    match (a, b) {
        (CraftTech::Miner(x), CraftTech::Miner(y)) => x == y,
        (CraftTech::Furnace(x), CraftTech::Furnace(y)) => x == y,
        (CraftTech::Simple(x), CraftTech::Simple(y)) => x == y,
        (
            CraftTech::Assembler(Assembler::Basic),
            CraftTech::Assembler(Assembler::Basic),
        ) => true,
        (
            CraftTech::Assembler(Assembler::Blue { .. }),
            CraftTech::Assembler(Assembler::Blue { .. }),
        ) => true,
        (
            CraftTech::Assembler(Assembler::Green { .. }),
            CraftTech::Assembler(Assembler::Green { .. }),
        ) => true,
        _ => false,
    }
}

} // verus!
