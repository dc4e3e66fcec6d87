//! The catalog model: items, their recipes, and the parsing of catalog rows.
//!
//! An item is made by a craft cycle: after `craft_duration` seconds a
//! facility yields `quantity` units, consuming for each cycle the amounts
//! listed under `dependencies`. A dependency identifier need not name a known
//! item; unknown identifiers are tolerated throughout (see the resolver).

use crate::error::Error;
use crate::rat::{canon, frac_canonical, frac_fits, Frac, Ratio};
use crate::text::{
    all_digits, dec_frac, digits_val, parse_ratio, parse_u32, split_ranges, split_seq, str_chars,
    str_eq, subvec, valid_decimal,
};
use vstd::prelude::*;
use vstd::string::StrSliceExecFns;

verus! {

/// How an item is crafted; decides which facility makes it by default.
#[derive(Debug, Clone, Copy, PartialEq, Eq, Structural)]
pub enum CraftType {
    Ore,
    Smelt,
    Assemble,
    Chemical,
    Silo,
    Launch,
}

/// The craft type a name denotes, if any.
pub open spec fn spec_craft_type_of(s: Seq<char>) -> Option<CraftType> {
    if s == "Ore"@ {
        Some(CraftType::Ore)
    } else if s == "Smelt"@ {
        Some(CraftType::Smelt)
    } else if s == "Assemble"@ {
        Some(CraftType::Assemble)
    } else if s == "Chemical"@ {
        Some(CraftType::Chemical)
    } else if s == "Silo"@ {
        Some(CraftType::Silo)
    } else if s == "Launch"@ {
        Some(CraftType::Launch)
    } else {
        None
    }
}

/// Parse a craft type name.
pub fn parse_craft_type(s: &str) -> (r: Option<CraftType>)
    ensures
        r == spec_craft_type_of(s@),
{
    if str_eq(s, "Ore") {
        Some(CraftType::Ore)
    } else if str_eq(s, "Smelt") {
        Some(CraftType::Smelt)
    } else if str_eq(s, "Assemble") {
        Some(CraftType::Assemble)
    } else if str_eq(s, "Chemical") {
        Some(CraftType::Chemical)
    } else if str_eq(s, "Silo") {
        Some(CraftType::Silo)
    } else if str_eq(s, "Launch") {
        Some(CraftType::Launch)
    } else {
        None
    }
}

/// One input of a recipe: the item consumed and how much of it one craft
/// cycle takes.
#[derive(Debug)]
pub struct Dependency {
    pub id: String,
    pub quantity: Ratio,
}

/// Mathematical value of a [`Dependency`].
pub struct DependencyV {
    pub id: Seq<char>,
    pub quantity: Frac,
}

impl View for Dependency {
    type V = DependencyV;

    open spec fn view(&self) -> DependencyV {
        DependencyV { id: self.id@, quantity: self.quantity@ }
    }
}

/// The values of a dependency list.
pub open spec fn deps_view(s: Seq<Dependency>) -> Seq<DependencyV> {
    Seq::new(s.len(), |i: int| s[i]@)
}

/// No identifier occurs twice.
pub open spec fn deps_unique(s: Seq<DependencyV>) -> bool {
    forall|i: int, j: int| 0 <= i < j < s.len() ==> s[i].id != s[j].id
}

/// Every quantity is a canonical ratio.
pub open spec fn deps_canonical(s: Seq<DependencyV>) -> bool {
    forall|i: int| 0 <= i < s.len() ==> frac_canonical((#[trigger] s[i]).quantity)
}

/// An item of the catalog.
#[derive(Debug)]
pub struct Product {
    pub id: String,
    pub name: String,
    pub craft_duration: Ratio,
    pub craft_type: CraftType,
    pub quantity: u32,
    pub dependencies: Vec<Dependency>,
}

/// Mathematical value of a [`Product`].
pub struct ProductV {
    pub id: Seq<char>,
    pub name: Seq<char>,
    pub craft_duration: Frac,
    pub craft_type: CraftType,
    pub quantity: int,
    pub dependencies: Seq<DependencyV>,
}

impl View for Product {
    type V = ProductV;

    open spec fn view(&self) -> ProductV {
        ProductV {
            id: self.id@,
            name: self.name@,
            craft_duration: self.craft_duration@,
            craft_type: self.craft_type,
            quantity: self.quantity as int,
            dependencies: deps_view(self.dependencies@),
        }
    }
}

/// The values of a catalog.
pub open spec fn catalog_view(s: Seq<Product>) -> Seq<ProductV> {
    Seq::new(s.len(), |i: int| s[i]@)
}

/// A well-formed catalog: well-formed items with pairwise distinct
/// identifiers.
pub open spec fn catalog_wf(cat: Seq<ProductV>) -> bool {
    &&& forall|i: int| 0 <= i < cat.len() ==> product_wf(#[trigger] cat[i])
    &&& forall|i: int, j: int| 0 <= i < j < cat.len() ==> cat[i].id != cat[j].id
}

/// A well-formed item: positive yield, canonical rates, no dependency listed
/// twice.
pub open spec fn product_wf(p: ProductV) -> bool {
    &&& frac_canonical(p.craft_duration)
    &&& p.quantity >= 1
    &&& deps_unique(p.dependencies)
    &&& deps_canonical(p.dependencies)
}

impl Product {
    /// An equal-valued copy.
    pub fn duplicate(&self) -> (p: Product)
        ensures
            p@ == self@,
    {
        let mut deps: Vec<Dependency> = Vec::new();
        let n = self.dependencies.len();
        for i in 0..n
            invariant
                n == self.dependencies@.len(),
                deps@.len() == i,
                deps_view(deps@) == deps_view(self.dependencies@.take(i as int)),
        {
            let d = &self.dependencies[i];
            let id2 = d.id.clone();
            proof {
                assert(id2 == self.dependencies@[i as int].id);
            }
            deps.push(Dependency { id: id2, quantity: d.quantity });
            proof {
                assert(deps@.last()@ == self.dependencies@[i as int]@);
                assert(forall|t: int|
                    0 <= t < i ==> #[trigger] deps@[t]@ == deps_view(
                        self.dependencies@.take(i as int),
                    )[t]);
                assert(self.dependencies@.take(i + 1)[i as int] == self.dependencies@[i as int]);
                assert(deps_view(deps@) =~= deps_view(self.dependencies@.take(i + 1)));
            }
        }
        proof {
            assert(self.dependencies@.take(n as int) =~= self.dependencies@);
        }
        let p = Product {
            id: self.id.clone(),
            name: self.name.clone(),
            craft_duration: self.craft_duration,
            craft_type: self.craft_type,
            quantity: self.quantity,
            dependencies: deps,
        };
        proof {
            assert(p@ =~= self@) by {
                assert(deps_view(p.dependencies@) =~= deps_view(self.dependencies@));
            }
        }
        p
    }
}

/// Index of the first entry for `id`, or the length if there is none.
pub open spec fn dep_index(s: Seq<DependencyV>, id: Seq<char>) -> int
    decreases s.len(),
{
    if s.len() == 0 {
        0
    } else if s[0].id == id {
        0
    } else {
        1 + dep_index(s.skip(1), id)
    }
}

pub proof fn lemma_dep_index(s: Seq<DependencyV>, id: Seq<char>)
    ensures
        0 <= dep_index(s, id) <= s.len(),
        forall|i: int| 0 <= i < dep_index(s, id) ==> s[i].id != id,
        dep_index(s, id) < s.len() ==> s[dep_index(s, id)].id == id,
    decreases s.len(),
{
    if s.len() > 0 && s[0].id != id {
        lemma_dep_index(s.skip(1), id);
        assert forall|i: int| 0 <= i < dep_index(s, id) implies s[i].id != id by {
            if i > 0 {
                assert(s[i] == s.skip(1)[i - 1]);
            }
        }
        if dep_index(s, id) < s.len() {
            assert(s[dep_index(s, id)] == s.skip(1)[dep_index(s.skip(1), id)]);
        }
    }
}

pub proof fn lemma_dep_index_unique(s: Seq<DependencyV>, id: Seq<char>, k: int)
    requires
        0 <= k <= s.len(),
        forall|i: int| 0 <= i < k ==> s[i].id != id,
        k < s.len() ==> s[k].id == id,
    ensures
        dep_index(s, id) == k,
    decreases s.len(),
{
    if s.len() > 0 && s[0].id != id {
        assert forall|i: int| 0 <= i < k - 1 implies s.skip(1)[i].id != id by {
            assert(s.skip(1)[i] == s[i + 1]);
        }
        if k - 1 < s.skip(1).len() {
            assert(s.skip(1)[k - 1] == s[k]);
        }
        lemma_dep_index_unique(s.skip(1), id, k - 1);
    }
}

/// Record `quantity` for `id`: replace the existing entry, else append one
/// (the last record for an identifier wins).
pub open spec fn dep_upsert(s: Seq<DependencyV>, id: Seq<char>, q: Frac) -> Seq<DependencyV> {
    let k = dep_index(s, id);
    if k == s.len() {
        s.push(DependencyV { id, quantity: q })
    } else {
        s.update(k, DependencyV { id, quantity: q })
    }
}

/// Upserting keeps identifiers unique and quantities canonical.
pub proof fn lemma_dep_upsert_wf(s: Seq<DependencyV>, id: Seq<char>, q: Frac)
    requires
        deps_unique(s),
        deps_canonical(s),
        frac_canonical(q),
    ensures
        deps_unique(dep_upsert(s, id, q)),
        deps_canonical(dep_upsert(s, id, q)),
{
    lemma_dep_index(s, id);
    let k = dep_index(s, id);
    let t = dep_upsert(s, id, q);
    if k == s.len() {
        assert forall|i: int, j: int| 0 <= i < j < t.len() implies t[i].id != t[j].id by {
            if j < s.len() {
            } else {
                assert(t[i].id == s[i].id && t[j].id == id);
            }
        }
    } else {
        assert(s[k].id == id);
        assert forall|i: int, j: int| 0 <= i < j < t.len() implies t[i].id != t[j].id by {
            assert(t[i].id == s[i].id && t[j].id == s[j].id);
        }
    }
}

/// The parts of one dependency segment around its `:` separator.
pub open spec fn seg_parts(seg: Seq<char>) -> Seq<Seq<char>> {
    split_seq(seg, ':')
}

/// A segment is well formed: exactly `identifier:numeral`.
pub open spec fn seg_ok(seg: Seq<char>) -> bool {
    seg_parts(seg).len() == 2 && valid_decimal(seg_parts(seg)[1])
}

/// The segment's quantity fits the ratio representation.
pub open spec fn seg_fits(seg: Seq<char>) -> bool {
    frac_fits(canon(dec_frac(seg_parts(seg)[1])))
}

pub open spec fn seg_id(seg: Seq<char>) -> Seq<char> {
    seg_parts(seg)[0]
}

pub open spec fn seg_qty(seg: Seq<char>) -> Frac {
    canon(dec_frac(seg_parts(seg)[1]))
}

/// The dependency list the first `k` segments denote.
pub open spec fn spec_deps(segs: Seq<Seq<char>>, k: nat) -> Seq<DependencyV>
    decreases k,
{
    if k == 0 {
        Seq::empty()
    } else {
        dep_upsert(
            spec_deps(segs, (k - 1) as nat),
            seg_id(segs[k - 1]),
            seg_qty(segs[k - 1]),
        )
    }
}

/// The index of the first segment that is malformed or whose quantity does
/// not fit, or the length if all are good.
pub open spec fn first_bad_seg(segs: Seq<Seq<char>>) -> int
    decreases segs.len(),
{
    if segs.len() == 0 {
        0
    } else if !(seg_ok(segs[0]) && seg_fits(segs[0])) {
        0
    } else {
        1 + first_bad_seg(segs.skip(1))
    }
}

pub proof fn lemma_first_bad_seg_unique(segs: Seq<Seq<char>>, k: int)
    requires
        0 <= k <= segs.len(),
        forall|i: int| 0 <= i < k ==> seg_ok(#[trigger] segs[i]) && seg_fits(segs[i]),
        k < segs.len() ==> !(seg_ok(segs[k]) && seg_fits(segs[k])),
    ensures
        first_bad_seg(segs) == k,
    decreases segs.len(),
{
    if segs.len() > 0 && seg_ok(segs[0]) && seg_fits(segs[0]) {
        assert forall|i: int| 0 <= i < k - 1 implies seg_ok(#[trigger] segs.skip(1)[i]) && seg_fits(
            segs.skip(1)[i],
        ) by {
            assert(segs.skip(1)[i] == segs[i + 1]);
        }
        if k - 1 < segs.skip(1).len() {
            assert(segs.skip(1)[k - 1] == segs[k]);
        }
        lemma_first_bad_seg_unique(segs.skip(1), k - 1);
    }
}

/// Replace or append the entry for `id`.
fn upsert_dep(out: &mut Vec<Dependency>, id: String, qty: Ratio)
    ensures
        deps_view(final(out)@) == dep_upsert(deps_view(old(out)@), id@, qty@),
{
    let n = out.len();
    let ghost s = deps_view(out@);
    let mut j: usize = 0;
    while j < n
        invariant
            0 <= j <= n == out@.len(),
            out@ == old(out)@,
            s == deps_view(out@),
            forall|i: int| 0 <= i < j ==> s[i].id != id@,
        decreases n - j,
    {
        if out[j].id == id {
            proof {
                lemma_dep_index_unique(s, id@, j as int);
            }
            out[j] = Dependency { id, quantity: qty };
            proof {
                assert(dep_index(s, id@) == j as int);
                assert(deps_view(out@) =~= s.update(j as int, DependencyV {
                    id: id@,
                    quantity: qty@,
                }));
                assert(deps_view(out@) == dep_upsert(s, id@, qty@));
            }
            return ;
        }
        j = j + 1;
    }
    proof {
        lemma_dep_index_unique(s, id@, n as int);
    }
    out.push(Dependency { id, quantity: qty });
    proof {
        assert(deps_view(out@) =~= s.push(DependencyV { id: id@, quantity: qty@ }));
    }
}

/// Parse a dependency encoding: segments separated by `;`, each an
/// `identifier:numeral` pair; the empty string denotes no dependencies.
///
/// Succeeds exactly when every segment is well formed and every quantity fits
/// the ratio representation; a later record for an identifier replaces an
/// earlier one.
pub fn build_dependencies(deps: &str) -> (r: Result<Vec<Dependency>, Error>)
    ensures
        deps@.len() == 0 ==> (r matches Ok(v) && v@.len() == 0),
        deps@.len() > 0 ==> {
            let segs = split_seq(deps@, ';');
            &&& (r is Ok <==> forall|k: int|
                0 <= k < segs.len() ==> seg_ok(#[trigger] segs[k]) && seg_fits(segs[k]))
            &&& (r matches Ok(v) ==> deps_view(v@) == spec_deps(segs, segs.len() as nat)
                && deps_unique(deps_view(v@)) && deps_canonical(deps_view(v@)))
            &&& (r matches Err(e) ==> {
                let k = first_bad_seg(segs);
                &&& 0 <= k < segs.len()
                &&& match e {
                    Error::MalformedInput(f) => !seg_ok(segs[k]) && (if seg_parts(segs[k]).len()
                        != 2 {
                        f@ == segs[k]
                    } else {
                        f@ == seg_parts(segs[k])[1]
                    }),
                    Error::ValueOverflow => seg_ok(segs[k]) && !seg_fits(segs[k]),
                    _ => false,
                }
            })
        },
{
    let cs = str_chars(deps);
    if cs.len() == 0 {
        return Ok(Vec::new());
    }
    let ghost segs = split_seq(deps@, ';');
    let ranges = split_ranges(&cs, ';');
    let n = ranges.len();
    let mut out: Vec<Dependency> = Vec::new();
    for k in 0..n
        invariant
            n == ranges@.len() == segs.len(),
            cs@ == deps@,
            deps@.len() > 0,
            segs == split_seq(deps@, ';'),
            forall|t: int|
                0 <= t < n ==> (#[trigger] ranges@[t]).0 <= ranges@[t].1 <= cs@.len()
                    && cs@.subrange(ranges@[t].0 as int, ranges@[t].1 as int) == segs[t],
            forall|t: int| 0 <= t < k ==> seg_ok(#[trigger] segs[t]) && seg_fits(segs[t]),
            deps_view(out@) == spec_deps(segs, k as nat),
            deps_unique(deps_view(out@)),
            deps_canonical(deps_view(out@)),
    {
        let a = ranges[k].0;
        let b = ranges[k].1;
        let seg = subvec(&cs, a, b);
        proof {
            assert(seg@ == segs[k as int]);
        }
        let parts = split_ranges(&seg, ':');
        if parts.len() != 2 {
            proof {
                lemma_first_bad_seg_unique(segs, k as int);
            }
            return Err(Error::MalformedInput(deps.substring_char(a, b).to_owned()));
        }
        let q0 = parts[1].0;
        let q1 = parts[1].1;
        proof {
            assert(cs@.subrange(a as int, b as int).subrange(q0 as int, q1 as int)
                =~= cs@.subrange(a + q0, a + q1));
        }
        let qty_str = deps.substring_char(a + q0, a + q1);
        let qty = match parse_ratio(qty_str) {
            Ok(v) => v,
            Err(e) => {
                proof {
                    lemma_first_bad_seg_unique(segs, k as int);
                }
                return Err(e);
            },
        };
        let p0 = parts[0].0;
        let p1 = parts[0].1;
        proof {
            assert(cs@.subrange(a as int, b as int).subrange(p0 as int, p1 as int)
                =~= cs@.subrange(a + p0, a + p1));
        }
        let id: String = deps.substring_char(a + p0, a + p1).to_owned();
        proof {
            lemma_dep_upsert_wf(deps_view(out@), id@, qty@);
        }
        upsert_dep(&mut out, id, qty);
    }
    Ok(out)
}

/// One raw catalog row, exactly as loaded: every field still text.
#[derive(Debug)]
pub struct ProductRow {
    pub id: String,
    pub name: String,
    pub craft_duration: String,
    pub craft_type: String,
    pub quantity: String,
    pub dependencies: String,
}

/// The numeric and structured fields of a row all parse and fit.
pub open spec fn row_ok(row: ProductRow) -> bool {
    &&& valid_decimal(row.craft_duration@)
    &&& frac_fits(canon(dec_frac(row.craft_duration@)))
    &&& spec_craft_type_of(row.craft_type@) is Some
    &&& all_digits(row.quantity@)
    &&& row.quantity@.len() >= 1
    &&& 1 <= digits_val(row.quantity@) <= u32::MAX as nat
    &&& (row.dependencies@.len() > 0 ==> forall|k: int|
        0 <= k < split_seq(row.dependencies@, ';').len() ==> seg_ok(
            #[trigger] split_seq(row.dependencies@, ';')[k],
        ) && seg_fits(split_seq(row.dependencies@, ';')[k]))
}

/// The dependency list a row denotes.
pub open spec fn row_deps(row: ProductRow) -> Seq<DependencyV> {
    if row.dependencies@.len() == 0 {
        Seq::empty()
    } else {
        spec_deps(
            split_seq(row.dependencies@, ';'),
            split_seq(row.dependencies@, ';').len() as nat,
        )
    }
}

impl ProductRow {
    /// Parse the row into a catalog item.
    ///
    /// Succeeds exactly when the duration is a fitting numeral, the craft
    /// type is known, the quantity is a whole number between 1 and
    /// `u32::MAX`, and the dependency encoding parses.
    pub fn into_domain(self) -> (r: Result<Product, Error>)
        ensures
            r is Ok <==> row_ok(self),
            r matches Ok(p) ==> {
                &&& p@.id == self.id@
                &&& p@.name == self.name@
                &&& p@.craft_duration == canon(dec_frac(self.craft_duration@))
                &&& Some(p@.craft_type) == spec_craft_type_of(self.craft_type@)
                &&& p@.quantity == digits_val(self.quantity@)
                &&& p@.dependencies == row_deps(self)
                &&& product_wf(p@)
            },
            r matches Err(e) ==> (e is MalformedInput || e is ValueOverflow),
    {
        let craft_duration = match parse_ratio(self.craft_duration.as_str()) {
            Ok(v) => v,
            Err(e) => {
                return Err(e);
            },
        };
        let craft_type = match parse_craft_type(self.craft_type.as_str()) {
            Some(t) => t,
            None => {
                return Err(Error::MalformedInput(self.craft_type));
            },
        };
        let quantity = match parse_u32(self.quantity.as_str()) {
            Ok(v) => v,
            Err(e) => {
                return Err(e);
            },
        };
        if quantity == 0 {
            return Err(Error::MalformedInput(self.quantity));
        }
        let dependencies = match build_dependencies(self.dependencies.as_str()) {
            Ok(v) => v,
            Err(e) => {
                return Err(e);
            },
        };
        Ok(
            Product {
                id: self.id,
                name: self.name,
                craft_duration,
                craft_type,
                quantity,
                dependencies,
            },
        )
    }
}

} // verus!
