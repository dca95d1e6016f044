//! Resolution of a peripheral: its chain of `derived_from` references is
//! followed and merged, base first; the derivation of the registers and
//! fields inside it is resolved; and the attributes that registers,
//! clusters and fields leave open are filled from the nearest enclosing
//! default. The device is never changed: what is resolved is a copy.

use vstd::prelude::*;
use crate::chain::{
    chain_after, derivation_chain, find_link, follow_derivation, is_trail, lemma_chain_ends_at_base, lemma_chain_of_base,
    link_models, position_of, positions, ChainError, Link, LinkModel,
};
use crate::derive::{
    derive_members, derived_members, fail, failure, lemma_derived_members_are_plain,
    lemma_plain_members_stay, or_else, pick, pick_text, plain_cluster, plain_peripheral,
    plain_register, Level, ResolveError, ResolveErrorModel,
};
use crate::model::{
    cluster_models, copy_clusters, copy_registers, copy_text, field_models, lemma_cluster_children,
    register_models, Access, Cluster, ClusterModel, Defaults, Device, DeviceModel, Field,
    FieldModel, Peripheral, PeripheralModel, Register, RegisterModel,
};

verus! {

/// The names and references of the peripherals of a device.
pub open spec fn peripheral_links(peripherals: Seq<PeripheralModel>) -> Seq<LinkModel> {
    Seq::new(
        peripherals.len(),
        |i: int| LinkModel { name: peripherals[i].name, derived_from: peripherals[i].derived_from },
    )
}

/// Defaults in which each attribute that `own` leaves open comes from
/// `outer`.
pub open spec fn inherit(own: Defaults, outer: Defaults) -> Defaults {
    Defaults {
        size: or_else(own.size, outer.size),
        reset_value: or_else(own.reset_value, outer.reset_value),
        access: or_else(own.access, outer.access),
    }
}

/// What holds where neither the device nor anything below it says
/// otherwise: registers of 32 bits that read and write and reset to zero.
pub open spec fn last_resort() -> Defaults {
    Defaults { size: Some(32u32), reset_value: Some(0u64), access: Some(Access::ReadWrite) }
}

/// Some register of the list has the given name.
pub open spec fn has_register(registers: Seq<RegisterModel>, name: Seq<char>) -> bool {
    exists|i: int| 0 <= i < registers.len() && (#[trigger] registers[i]).name == name
}

/// Some cluster of the list has the given name.
pub open spec fn has_cluster(clusters: Seq<ClusterModel>, name: Seq<char>) -> bool {
    exists|i: int| 0 <= i < clusters.len() && (#[trigger] clusters[i]).name == name
}

/// The registers of `base` that no register of `own` replaces, in the order
/// of `base`.
pub open spec fn inherited_registers(base: Seq<RegisterModel>, own: Seq<RegisterModel>) -> Seq<
    RegisterModel,
>
    decreases base.len(),
{
    if base.len() == 0 {
        Seq::empty()
    } else {
        let rest = inherited_registers(base.drop_last(), own);
        if has_register(own, base.last().name) {
            rest
        } else {
            rest.push(base.last())
        }
    }
}

/// The clusters of `base` that no cluster of `own` replaces.
pub open spec fn inherited_clusters(base: Seq<ClusterModel>, own: Seq<ClusterModel>) -> Seq<
    ClusterModel,
>
    decreases base.len(),
{
    if base.len() == 0 {
        Seq::empty()
    } else {
        let rest = inherited_clusters(base.drop_last(), own);
        if has_cluster(own, base.last().name) {
            rest
        } else {
            rest.push(base.last())
        }
    }
}

/// The deriving peripheral on top of its base: its own attributes where it
/// sets them and its own registers and clusters first, then whatever of the
/// base it does not replace by name. Name and base address are its own.
pub open spec fn merge(base: PeripheralModel, derived: PeripheralModel) -> PeripheralModel {
    PeripheralModel {
        name: derived.name,
        group_name: or_else(derived.group_name, base.group_name),
        description: or_else(derived.description, base.description),
        base_address: derived.base_address,
        derived_from: None,
        defaults: inherit(derived.defaults, base.defaults),
        registers: match derived.registers {
            Some(own) => match base.registers {
                Some(inherited) => Some(own + inherited_registers(inherited, own)),
                None => Some(own),
            },
            None => base.registers,
        },
        clusters: derived.clusters + inherited_clusters(base.clusters, derived.clusters),
    }
}

/// The peripherals of a chain merged, the base first and the head of the
/// chain last.
pub open spec fn flattened(peripherals: Seq<PeripheralModel>, chain: Seq<int>) -> PeripheralModel
    decreases chain.len(),
{
    if chain.len() <= 1 {
        peripherals[chain[0]]
    } else {
        merge(flattened(peripherals, chain.drop_first()), peripherals[chain[0]])
    }
}

/// A field with its access mode settled.
pub open spec fn settled_field(f: FieldModel, access: Option<Access>) -> FieldModel {
    FieldModel { access: or_else(f.access, access), ..f }
}

/// The fields of a list, each with its access mode settled.
pub open spec fn settled_fields(fields: Seq<FieldModel>, access: Option<Access>) -> Seq<FieldModel> {
    Seq::new(fields.len(), |i: int| settled_field(fields[i], access))
}

/// A register with size, access mode and reset value settled from
/// `defaults`, and its fields from its own access mode.
pub open spec fn settled_register(r: RegisterModel, defaults: Defaults) -> RegisterModel {
    let access = or_else(r.access, defaults.access);
    RegisterModel {
        size: or_else(r.size, defaults.size),
        access,
        reset_value: or_else(r.reset_value, defaults.reset_value),
        fields: match r.fields {
            Some(fields) => Some(settled_fields(fields, access)),
            None => None,
        },
        ..r
    }
}

/// The registers of a list, each settled from `defaults`.
pub open spec fn settled_registers(registers: Seq<RegisterModel>, defaults: Defaults) -> Seq<
    RegisterModel,
> {
    Seq::new(registers.len(), |i: int| settled_register(registers[i], defaults))
}

/// A cluster with its defaults settled from `outer`, and what it contains
/// settled from its own.
pub open spec fn settled_cluster(c: ClusterModel, outer: Defaults) -> ClusterModel
    decreases c,
{
    let defaults = inherit(c.defaults, outer);
    ClusterModel {
        defaults,
        registers: settled_registers(c.registers, defaults),
        clusters: Seq::new(
            c.clusters.len(),
            |i: int|
                if 0 <= i < c.clusters.len() {
                    settled_cluster(c.clusters[i], defaults)
                } else {
                    arbitrary()
                },
        ),
        ..c
    }
}

/// The clusters of a list, each settled from `outer`.
pub open spec fn settled_clusters(clusters: Seq<ClusterModel>, outer: Defaults) -> Seq<ClusterModel> {
    Seq::new(clusters.len(), |i: int| settled_cluster(clusters[i], outer))
}

/// A peripheral in which nothing is left open: its defaults are its own,
/// else the device's, else the last resort, and everything below is settled
/// from them.
pub open spec fn settled(p: PeripheralModel, device: Defaults) -> PeripheralModel {
    let defaults = inherit(inherit(p.defaults, device), last_resort());
    PeripheralModel {
        defaults,
        registers: match p.registers {
            Some(registers) => Some(settled_registers(registers, defaults)),
            None => None,
        },
        clusters: settled_clusters(p.clusters, defaults),
        ..p
    }
}

/// The resolved form of the peripheral at `start`: its chain of derivation
/// merged, the derivation of its registers and fields resolved, and every
/// open attribute settled; or the first error on that way.
pub open spec fn resolved(device: DeviceModel, start: int) -> Result<
    PeripheralModel,
    ResolveErrorModel,
> {
    match derivation_chain(peripheral_links(device.peripherals), start) {
        Err(e) => Err(failure(Level::Peripheral, peripheral_links(device.peripherals), e)),
        Ok(chain) => match derived_members(flattened(device.peripherals, chain)) {
            Err(e) => Err(e),
            Ok(p) => Ok(settled(p, device.defaults)),
        },
    }
}

fn inherit_defaults(own: &Defaults, outer: &Defaults) -> (res: Defaults)
    ensures
        res == inherit(*own, *outer),
{
    Defaults {
        size: pick(own.size, outer.size),
        reset_value: pick(own.reset_value, outer.reset_value),
        access: pick(own.access, outer.access),
    }
}

fn has_register_named(registers: &Vec<Register>, name: &String) -> (res: bool)
    ensures
        res == has_register(register_models(registers@), name@),
{
    let mut i: usize = 0;
    while i < registers.len()
        invariant
            i <= registers.len(),
            forall|j: int| 0 <= j < i ==> (#[trigger] register_models(registers@)[j]).name != name@,
        decreases registers.len() - i,
    {
        if registers[i].name == *name {
            assert(register_models(registers@)[i as int].name == name@);
            return true;
        }
        i += 1;
    }
    false
}

fn has_cluster_named(clusters: &Vec<Cluster>, name: &String) -> (res: bool)
    ensures
        res == has_cluster(cluster_models(clusters@), name@),
{
    let mut i: usize = 0;
    while i < clusters.len()
        invariant
            i <= clusters.len(),
            forall|j: int| 0 <= j < i ==> (#[trigger] cluster_models(clusters@)[j]).name != name@,
        decreases clusters.len() - i,
    {
        if clusters[i].name == *name {
            assert(cluster_models(clusters@)[i as int].name == name@);
            return true;
        }
        i += 1;
    }
    false
}

fn merge_register_lists(base: &Vec<Register>, own: &Vec<Register>) -> (res: Vec<Register>)
    ensures
        register_models(res@) == register_models(own@) + inherited_registers(
            register_models(base@),
            register_models(own@),
        ),
{
    let mut res = copy_registers(own);
    let mut i: usize = 0;
    assert(register_models(base@).take(0) =~= Seq::<RegisterModel>::empty());
    while i < base.len()
        invariant
            i <= base.len(),
            register_models(res@) == register_models(own@) + inherited_registers(
                register_models(base@).take(i as int),
                register_models(own@),
            ),
        decreases base.len() - i,
    {
        assert(register_models(base@).take(i + 1).drop_last() =~= register_models(base@).take(
            i as int,
        ));
        if !has_register_named(own, &base[i].name) {
            let ghost before = register_models(res@);
            let copy = base[i].duplicate();
            res.push(copy);
            assert(register_models(res@) =~= before.push(copy@));
        }
        i += 1;
    }
    assert(register_models(base@).take(base.len() as int) =~= register_models(base@));
    res
}

fn merge_clusters(base: &Vec<Cluster>, own: &Vec<Cluster>) -> (res: Vec<Cluster>)
    ensures
        cluster_models(res@) == cluster_models(own@) + inherited_clusters(
            cluster_models(base@),
            cluster_models(own@),
        ),
{
    let mut res = copy_clusters(own);
    let mut i: usize = 0;
    assert(cluster_models(base@).take(0) =~= Seq::<ClusterModel>::empty());
    while i < base.len()
        invariant
            i <= base.len(),
            cluster_models(res@) == cluster_models(own@) + inherited_clusters(
                cluster_models(base@).take(i as int),
                cluster_models(own@),
            ),
        decreases base.len() - i,
    {
        assert(cluster_models(base@).take(i + 1).drop_last() =~= cluster_models(base@).take(
            i as int,
        ));
        if !has_cluster_named(own, &base[i].name) {
            let ghost before = cluster_models(res@);
            let copy = base[i].duplicate();
            res.push(copy);
            assert(cluster_models(res@) =~= before.push(copy@));
        }
        i += 1;
    }
    assert(cluster_models(base@).take(base.len() as int) =~= cluster_models(base@));
    res
}

/// Merges a deriving peripheral with its base.
pub fn merge_peripherals(base: &Peripheral, derived: &Peripheral) -> (res: Peripheral)
    ensures
        res@ == merge(base@, derived@),
{
    let registers = match &derived.registers {
        Some(own) => match &base.registers {
            Some(inherited) => Some(merge_register_lists(inherited, own)),
            None => Some(copy_registers(own)),
        },
        None => match &base.registers {
            Some(inherited) => Some(copy_registers(inherited)),
            None => None,
        },
    };
    Peripheral {
        name: derived.name.clone(),
        group_name: pick_text(&derived.group_name, &base.group_name),
        description: pick_text(&derived.description, &base.description),
        base_address: derived.base_address,
        derived_from: None,
        defaults: inherit_defaults(&derived.defaults, &base.defaults),
        registers,
        clusters: merge_clusters(&base.clusters, &derived.clusters),
    }
}

/// Merges the peripherals of a chain, the base first.
pub fn flatten(device: &Device, chain: &Vec<usize>) -> (res: Peripheral)
    requires
        chain.len() > 0,
        forall|k: int| 0 <= k < chain.len() ==> #[trigger] chain[k] < device.peripherals.len(),
    ensures
        res@ == flattened(device@.peripherals, positions(chain@)),
{
    let last = chain.len() - 1;
    let mut acc = device.peripherals[chain[last]].duplicate();
    let mut k: usize = last;
    assert(positions(chain@).subrange(last as int, chain.len() as int) =~= seq![chain[last as int] as int]);
    while k > 0
        invariant
            k < chain.len(),
            forall|h: int| 0 <= h < chain.len() ==> #[trigger] chain[h] < device.peripherals.len(),
            acc@ == flattened(
                device@.peripherals,
                positions(chain@).subrange(k as int, chain.len() as int),
            ),
        decreases k,
    {
        k -= 1;
        let ghost tail = positions(chain@).subrange(k as int, chain.len() as int);
        assert(tail.drop_first() =~= positions(chain@).subrange(k + 1, chain.len() as int));
        assert(tail[0] == chain[k as int] as int);
        acc = merge_peripherals(&acc, &device.peripherals[chain[k]]);
    }
    assert(positions(chain@).subrange(0, chain.len() as int) =~= positions(chain@));
    acc
}

fn settle_field(f: &Field, access: Option<Access>) -> (res: Field)
    ensures
        res@ == settled_field(f@, access),
{
    let mut res = f.duplicate();
    res.access = pick(f.access, access);
    res
}

fn settle_fields(fields: &Vec<Field>, access: Option<Access>) -> (res: Vec<Field>)
    ensures
        field_models(res@) == settled_fields(field_models(fields@), access),
{
    let mut res: Vec<Field> = Vec::new();
    let mut i: usize = 0;
    while i < fields.len()
        invariant
            i <= fields.len(),
            field_models(res@) == settled_fields(field_models(fields@), access).take(i as int),
        decreases fields.len() - i,
    {
        let ghost before = field_models(res@);
        let field = settle_field(&fields[i], access);
        res.push(field);
        assert(field_models(res@) =~= before.push(field@));
        i += 1;
        assert(settled_fields(field_models(fields@), access).take(i as int) =~= before.push(
            field@,
        ));
    }
    assert(settled_fields(field_models(fields@), access).take(fields.len() as int)
        =~= settled_fields(field_models(fields@), access));
    res
}

fn settle_register(r: &Register, defaults: &Defaults) -> (res: Register)
    ensures
        res@ == settled_register(r@, *defaults),
{
    let access = pick(r.access, defaults.access);
    Register {
        name: r.name.clone(),
        derived_from: copy_text(&r.derived_from),
        description: r.description.clone(),
        address_offset: r.address_offset,
        size: pick(r.size, defaults.size),
        access,
        reset_value: pick(r.reset_value, defaults.reset_value),
        fields: match &r.fields {
            Some(fields) => Some(settle_fields(fields, access)),
            None => None,
        },
    }
}

fn settle_registers(registers: &Vec<Register>, defaults: &Defaults) -> (res: Vec<Register>)
    ensures
        register_models(res@) == settled_registers(register_models(registers@), *defaults),
{
    let mut res: Vec<Register> = Vec::new();
    let mut i: usize = 0;
    while i < registers.len()
        invariant
            i <= registers.len(),
            register_models(res@) == settled_registers(register_models(registers@), *defaults).take(
                i as int,
            ),
        decreases registers.len() - i,
    {
        let ghost before = register_models(res@);
        let register = settle_register(&registers[i], defaults);
        res.push(register);
        assert(register_models(res@) =~= before.push(register@));
        i += 1;
        assert(settled_registers(register_models(registers@), *defaults).take(i as int)
            =~= before.push(register@));
    }
    assert(settled_registers(register_models(registers@), *defaults).take(registers.len() as int)
        =~= settled_registers(register_models(registers@), *defaults));
    res
}

fn settle_cluster(c: &Cluster, outer: &Defaults) -> (res: Cluster)
    ensures
        res@ == settled_cluster(c@, *outer),
    decreases c,
{
    let defaults = inherit_defaults(&c.defaults, outer);
    let mut clusters: Vec<Cluster> = Vec::new();
    let mut i: usize = 0;
    proof {
        lemma_cluster_children(*c);
    }
    while i < c.clusters.len()
        invariant
            i <= c.clusters.len(),
            c@.clusters == cluster_models(c.clusters@),
            cluster_models(clusters@) == settled_clusters(c@.clusters, defaults).take(i as int),
        decreases c.clusters.len() - i,
    {
        let ghost before = cluster_models(clusters@);
        let inner = settle_cluster(&c.clusters[i], &defaults);
        clusters.push(inner);
        assert(cluster_models(clusters@) =~= before.push(inner@));
        i += 1;
        assert(settled_clusters(c@.clusters, defaults).take(i as int) =~= before.push(inner@));
    }
    assert(settled_clusters(c@.clusters, defaults).take(c.clusters.len() as int)
        =~= settled_clusters(c@.clusters, defaults));
    let res = Cluster {
        name: c.name.clone(),
        description: copy_text(&c.description),
        address_offset: c.address_offset,
        defaults,
        registers: settle_registers(&c.registers, &defaults),
        clusters,
    };
    proof {
        lemma_cluster_children(res);
        assert(settled_cluster(c@, *outer).clusters =~= settled_clusters(c@.clusters, defaults));
    }
    res
}

fn settle_clusters(clusters: &Vec<Cluster>, outer: &Defaults) -> (res: Vec<Cluster>)
    ensures
        cluster_models(res@) == settled_clusters(cluster_models(clusters@), *outer),
{
    let mut res: Vec<Cluster> = Vec::new();
    let mut i: usize = 0;
    while i < clusters.len()
        invariant
            i <= clusters.len(),
            cluster_models(res@) == settled_clusters(cluster_models(clusters@), *outer).take(
                i as int,
            ),
        decreases clusters.len() - i,
    {
        let ghost before = cluster_models(res@);
        let cluster = settle_cluster(&clusters[i], outer);
        res.push(cluster);
        assert(cluster_models(res@) =~= before.push(cluster@));
        i += 1;
        assert(settled_clusters(cluster_models(clusters@), *outer).take(i as int) =~= before.push(
            cluster@,
        ));
    }
    assert(settled_clusters(cluster_models(clusters@), *outer).take(clusters.len() as int)
        =~= settled_clusters(cluster_models(clusters@), *outer));
    res
}

/// Fills what a peripheral leaves open from its own defaults, the device's
/// and the last resort.
pub fn settle(p: &Peripheral, device: &Defaults) -> (res: Peripheral)
    ensures
        res@ == settled(p@, *device),
{
    let last = Defaults { size: Some(32), reset_value: Some(0), access: Some(Access::ReadWrite) };
    let defaults = inherit_defaults(&inherit_defaults(&p.defaults, device), &last);
    Peripheral {
        name: p.name.clone(),
        group_name: copy_text(&p.group_name),
        description: copy_text(&p.description),
        base_address: p.base_address,
        derived_from: copy_text(&p.derived_from),
        defaults,
        registers: match &p.registers {
            Some(registers) => Some(settle_registers(registers, &defaults)),
            None => None,
        },
        clusters: settle_clusters(&p.clusters, &defaults),
    }
}

fn peripheral_links_of(device: &Device) -> (res: Vec<Link>)
    ensures
        link_models(res@) == peripheral_links(device@.peripherals),
        res.len() == device.peripherals.len(),
{
    let ghost all = peripheral_links(device@.peripherals);
    let mut res: Vec<Link> = Vec::new();
    let mut i: usize = 0;
    while i < device.peripherals.len()
        invariant
            i <= device.peripherals.len(),
            all == peripheral_links(device@.peripherals),
            link_models(res@) == all.take(i as int),
            res.len() == i,
        decreases device.peripherals.len() - i,
    {
        let ghost before = link_models(res@);
        let link = Link {
            name: device.peripherals[i].name.clone(),
            derived_from: copy_text(&device.peripherals[i].derived_from),
        };
        res.push(link);
        assert(link_models(res@) =~= before.push(link@));
        i += 1;
        assert(all.take(i as int) =~= before.push(link@));
    }
    assert(all.take(device.peripherals.len() as int) =~= all);
    res
}

/// Resolves the peripheral at `start`: follows its chain of derivation and
/// merges the chain from the base up, resolves the derivation of the
/// registers inside each block and of the fields inside each register, and
/// settles every open attribute.
///
/// Fails with `UnresolvedReference` where a `derived_from` names nothing in
/// its scope, and with `DerivationCycle` where one leads back into its own
/// chain; the error names the entity and its kind. Peripherals are looked at
/// first, then the registers in order, each with its fields, then the
/// clusters. The device is left as it is.
pub fn resolve(device: &Device, start: usize) -> (res: Result<Peripheral, ResolveError>)
    requires
        start < device.peripherals.len(),
    ensures
        match resolved(device@, start as int) {
            Ok(p) => res matches Ok(x) && x@ == p,
            Err(e) => res matches Err(x) && x@ == e,
        },
{
    let links = peripheral_links_of(device);
    proof {
        lemma_chain_ends_at_base(link_models(links@), seq![start as int]);
    }
    match follow_derivation(&links, start) {
        Ok(chain) => {
            let merged = flatten(device, &chain);
            match derive_members(&merged) {
                Ok(p) => Ok(settle(&p, &device.defaults)),
                Err(e) => Err(e),
            }
        },
        Err(e) => Err(fail(Level::Peripheral, &links, e)),
    }
}

/// The resolved form of the first peripheral named `name`; a name that the
/// device does not hold cannot be resolved.
pub open spec fn resolved_by_name(device: DeviceModel, name: Seq<char>) -> Result<
    PeripheralModel,
    ResolveErrorModel,
> {
    match position_of(peripheral_links(device.peripherals), name) {
        Some(position) => resolved(device, position),
        None => Err(ResolveErrorModel::UnresolvedReference { level: Level::Peripheral, name }),
    }
}

/// Resolves the first peripheral of the device that has the given name.
pub fn resolve_named(device: &Device, name: &String) -> (res: Result<Peripheral, ResolveError>)
    ensures
        match resolved_by_name(device@, name@) {
            Ok(p) => res matches Ok(x) && x@ == p,
            Err(e) => res matches Err(x) && x@ == e,
        },
{
    let links = peripheral_links_of(device);
    match find_link(&links, name) {
        Some(position) => resolve(device, position),
        None => Err(
            ResolveError::UnresolvedReference { level: Level::Peripheral, name: name.clone() },
        ),
    }
}

/// What was resolved so far: for each peripheral of a device the outcome of
/// its resolution, once it was asked for. An entry is written once and read
/// from then on.
pub struct ResolutionCache {
    pub entries: Vec<Option<Result<Peripheral, ResolveError>>>,
}

/// The view of an outcome.
pub open spec fn outcome(r: Result<Peripheral, ResolveError>) -> Result<
    PeripheralModel,
    ResolveErrorModel,
> {
    match r {
        Ok(p) => Ok(p@),
        Err(e) => Err(e@),
    }
}

impl ResolutionCache {
    /// The cache belongs to the device: it has one entry for each
    /// peripheral, and each entry that is filled holds what resolving that
    /// peripheral gives.
    pub open spec fn wf(&self, device: DeviceModel) -> bool {
        &&& self.entries.len() == device.peripherals.len()
        &&& forall|i: int|
            0 <= i < self.entries.len() ==> ((#[trigger] self.entries[i]) matches Some(r)
                ==> outcome(r) == resolved(device, i))
    }

    /// The entry at `position` is filled.
    pub open spec fn holds(&self, position: int) -> bool {
        0 <= position < self.entries.len() && self.entries[position] is Some
    }

    /// An empty cache for a device.
    pub fn new(device: &Device) -> (cache: ResolutionCache)
        ensures
            cache.wf(device@),
            forall|i: int| !cache.holds(i),
    {
        let mut entries: Vec<Option<Result<Peripheral, ResolveError>>> = Vec::new();
        let mut i: usize = 0;
        while i < device.peripherals.len()
            invariant
                i <= device.peripherals.len(),
                entries.len() == i,
                forall|k: int| 0 <= k < i ==> (#[trigger] entries[k]) is None,
            decreases device.peripherals.len() - i,
        {
            entries.push(None);
            i += 1;
        }
        ResolutionCache { entries }
    }

    /// The resolved form of the peripheral at `position`, from the cache
    /// where it is there, else resolved now and kept. What is returned is
    /// what `resolve` returns; entries that were filled stay as they are.
    pub fn resolve(&mut self, device: &Device, position: usize) -> (res: Result<
        Peripheral,
        ResolveError,
    >)
        requires
            old(self).wf(device@),
            position < device.peripherals.len(),
        ensures
            final(self).wf(device@),
            final(self).holds(position as int),
            forall|i: int| old(self).holds(i) ==> final(self).entries[i] == old(self).entries[i],
            forall|i: int| i != position ==> final(self).holds(i) == old(self).holds(i),
            outcome(res) == resolved(device@, position as int),
    {
        let known = match &self.entries[position] {
            Some(Ok(p)) => Some(Ok(p.duplicate())),
            Some(Err(e)) => Some(Err(e.duplicate())),
            None => None,
        };
        match known {
            Some(found) => found,
            None => {
                let fresh = resolve(device, position);
                let copy = match &fresh {
                    Ok(p) => Ok(p.duplicate()),
                    Err(e) => Err(e.duplicate()),
                };
                self.entries.set(position, Some(copy));
                fresh
            },
        }
    }
}

/// Defaults that leave nothing open.
pub open spec fn complete(d: Defaults) -> bool {
    d.size is Some && d.reset_value is Some && d.access is Some
}

proof fn lemma_settled_register_is_stable(r: RegisterModel, first: Defaults, second: Defaults)
    requires
        complete(first),
    ensures
        settled_register(settled_register(r, first), second) == settled_register(r, first),
{
    let once = settled_register(r, first);
    let twice = settled_register(once, second);
    match r.fields {
        Some(fields) => {
            assert(twice.fields->0 =~= once.fields->0);
        },
        None => {},
    }
}

proof fn lemma_settled_cluster_is_stable(c: ClusterModel, first: Defaults, second: Defaults)
    requires
        complete(first),
    ensures
        settled_cluster(settled_cluster(c, first), second) == settled_cluster(c, first),
    decreases c,
{
    let once = settled_cluster(c, first);
    let twice = settled_cluster(once, second);
    let defaults = inherit(c.defaults, first);
    assert(inherit(once.defaults, second) == defaults);
    assert forall|i: int| 0 <= i < c.registers.len() implies twice.registers[i]
        == once.registers[i] by {
        lemma_settled_register_is_stable(c.registers[i], defaults, defaults);
    }
    assert(twice.registers =~= once.registers);
    assert forall|i: int| 0 <= i < c.clusters.len() implies twice.clusters[i] == once.clusters[i] by {
        lemma_settled_cluster_is_stable(c.clusters[i], defaults, defaults);
    }
    assert(twice.clusters =~= once.clusters);
}

/// Settling a settled peripheral changes nothing, whatever the device's
/// defaults are the second time.
pub proof fn lemma_settled_is_stable(p: PeripheralModel, first: Defaults, second: Defaults)
    ensures
        settled(settled(p, first), second) == settled(p, first),
{
    let once = settled(p, first);
    let twice = settled(once, second);
    let defaults = inherit(inherit(p.defaults, first), last_resort());
    assert(inherit(inherit(once.defaults, second), last_resort()) == defaults);
    match p.registers {
        Some(registers) => {
            assert forall|i: int| 0 <= i < registers.len() implies (twice.registers->0)[i] == (
            once.registers->0)[i] by {
                lemma_settled_register_is_stable(registers[i], defaults, defaults);
            }
            assert(twice.registers->0 =~= once.registers->0);
        },
        None => {},
    }
    assert forall|i: int| 0 <= i < p.clusters.len() implies twice.clusters[i] == once.clusters[i] by {
        lemma_settled_cluster_is_stable(p.clusters[i], defaults, defaults);
    }
    assert(twice.clusters =~= once.clusters);
}

proof fn lemma_settled_cluster_stays_plain(c: ClusterModel, outer: Defaults)
    requires
        plain_cluster(c),
    ensures
        plain_cluster(settled_cluster(c, outer)),
    decreases c,
{
    let defaults = inherit(c.defaults, outer);
    let after = settled_cluster(c, outer);
    assert forall|i: int| 0 <= i < after.registers.len() implies plain_register(
        #[trigger] after.registers[i],
    ) by {
        assert(plain_register(c.registers[i]));
    }
    assert forall|i: int| 0 <= i < after.clusters.len() implies plain_cluster(
        #[trigger] after.clusters[i],
    ) by {
        assert(plain_cluster(c.clusters[i]));
        lemma_settled_cluster_stays_plain(c.clusters[i], defaults);
    }
}

/// Settling takes no derivation into a peripheral that had none.
pub proof fn lemma_settled_stays_plain(p: PeripheralModel, device: Defaults)
    requires
        plain_peripheral(p),
    ensures
        plain_peripheral(settled(p, device)),
{
    let defaults = inherit(inherit(p.defaults, device), last_resort());
    let after = settled(p, device);
    match p.registers {
        Some(registers) => {
            assert forall|i: int| 0 <= i < registers.len() implies plain_register(
                #[trigger] (after.registers->0)[i],
            ) by {
                assert(plain_register(registers[i]));
            }
        },
        None => {},
    }
    assert forall|i: int| 0 <= i < after.clusters.len() implies plain_cluster(
        #[trigger] after.clusters[i],
    ) by {
        assert(plain_cluster(p.clusters[i]));
        lemma_settled_cluster_stays_plain(p.clusters[i], defaults);
    }
}

/// The merge of a chain that was followed to its base derives from nothing.
pub proof fn lemma_flattened_is_flat(peripherals: Seq<PeripheralModel>, chain: Seq<int>)
    requires
        chain.len() > 0,
        peripherals[chain.last()].derived_from is None,
    ensures
        flattened(peripherals, chain).derived_from is None,
{
    if chain.len() <= 1 {
        assert(chain.last() == chain[0]);
    }
}

/// In a resolved peripheral nothing derives from anything.
pub proof fn lemma_resolved_is_plain(device: DeviceModel, start: int)
    requires
        0 <= start < device.peripherals.len(),
    ensures
        resolved(device, start) matches Ok(p) ==> plain_peripheral(p),
{
    let links = peripheral_links(device.peripherals);
    assert(is_trail(links, seq![start]));
    lemma_chain_ends_at_base(links, seq![start]);
    match derivation_chain(links, start) {
        Ok(chain) => {
            let merged = flattened(device.peripherals, chain);
            lemma_flattened_is_flat(device.peripherals, chain);
            lemma_derived_members_are_plain(merged);
            match derived_members(merged) {
                Ok(p) => {
                    lemma_settled_stays_plain(p, device.defaults);
                },
                Err(_) => {},
            }
        },
        Err(_) => {},
    }
}

/// Resolving is idempotent: a resolved peripheral, placed in any device,
/// resolves to itself.
pub proof fn lemma_resolve_is_idempotent(device: DeviceModel, start: int, other: DeviceModel, at: int)
    requires
        0 <= start < device.peripherals.len(),
        0 <= at < other.peripherals.len(),
        resolved(device, start) == Ok::<PeripheralModel, ResolveErrorModel>(other.peripherals[at]),
    ensures
        resolved(other, at) == Ok::<PeripheralModel, ResolveErrorModel>(other.peripherals[at]),
{
    let p = other.peripherals[at];
    lemma_resolved_is_plain(device, start);
    lemma_chain_of_base(peripheral_links(other.peripherals), at);
    lemma_plain_members_stay(p);
    let chain = derivation_chain(peripheral_links(device.peripherals), start)->Ok_0;
    let before = derived_members(flattened(device.peripherals, chain))->Ok_0;
    lemma_settled_is_stable(before, device.defaults, other.defaults);
}

/// What becomes of a peripheral once its chain is merged: the derivation
/// of its members is resolved and every open attribute settled.
pub open spec fn finished(merged: PeripheralModel, device: Defaults) -> Result<
    PeripheralModel,
    ResolveErrorModel,
> {
    match derived_members(merged) {
        Err(e) => Err(e),
        Ok(p) => Ok(settled(p, device)),
    }
}

/// Resolving is transitive: where `top` derives from `middle` and `middle`
/// from `base`, which derives from none, resolving `top` gives what merging
/// the three in that order gives.
pub proof fn lemma_resolve_is_transitive(device: DeviceModel, base: int, middle: int, top: int)
    requires
        0 <= base < device.peripherals.len(),
        0 <= middle < device.peripherals.len(),
        0 <= top < device.peripherals.len(),
        base != middle && middle != top && base != top,
        device.peripherals[base].derived_from is None,
        device.peripherals[middle].derived_from matches Some(name) && position_of(
            peripheral_links(device.peripherals),
            name,
        ) == Some(base),
        device.peripherals[top].derived_from matches Some(name) && position_of(
            peripheral_links(device.peripherals),
            name,
        ) == Some(middle),
    ensures
        resolved(device, top) == finished(
            merge(
                merge(device.peripherals[base], device.peripherals[middle]),
                device.peripherals[top],
            ),
            device.defaults,
        ),
{
    let ps = device.peripherals;
    let links = peripheral_links(ps);
    let one = seq![top];
    let two = one.push(middle);
    let three = two.push(base);
    assert(is_trail(links, one));
    assert(!one.contains(middle));
    assert(is_trail(links, two)) by {
        assert forall|i: int, j: int| 0 <= i < two.len() && 0 <= j < two.len() && i != j implies two[i]
            != two[j] by {}
    }
    assert(!two.contains(base)) by {
        if two.contains(base) {
            let k = choose|k: int| 0 <= k < two.len() && two[k] == base;
            assert(k == 0 || k == 1);
        }
    }
    assert(is_trail(links, three)) by {
        assert forall|i: int, j: int|
            0 <= i < three.len() && 0 <= j < three.len() && i != j implies three[i] != three[j] by {}
    }
    assert(chain_after(links, three) == Ok::<Seq<int>, ChainError>(three));
    assert(chain_after(links, two) == chain_after(links, three));
    assert(chain_after(links, one) == chain_after(links, two));
    assert(three.drop_first() =~= seq![middle, base]);
    assert(seq![middle, base].drop_first() =~= seq![base]);
    assert(flattened(ps, seq![base]) == ps[base]);
    assert(flattened(ps, seq![middle, base]) == merge(ps[base], ps[middle]));
    assert(flattened(ps, three) == merge(merge(ps[base], ps[middle]), ps[top]));
}

} // verus!
