//! Derivation inside a peripheral: a register may derive from a register
//! of its block and a field from a field of its register. What an entity
//! leaves open it takes over from its base; its name and its place are its
//! own.

use vstd::prelude::*;
use crate::chain::{
    derivation_chain, follow_derivation, is_trail, lemma_chain_ends_at_base, lemma_chain_of_base,
    link_models, positions, ChainError, Link, LinkModel,
};
use crate::model::{
    cluster_models, copy_fields, copy_set, copy_text, field_models, lemma_cluster_children,
    register_models, text_of, Cluster, ClusterModel, Field, FieldModel, Peripheral, PeripheralModel,
    Register, RegisterModel,
};

verus! {

/// The kind of entity at which resolution failed.
#[derive(Clone, Copy, Debug, PartialEq, Eq, Structural)]
pub enum Level {
    Peripheral,
    Register,
    Field,
}

/// Why a peripheral cannot be resolved; `name` is the name of the entity
/// whose `derived_from` cannot be followed.
#[derive(Clone, Debug, PartialEq, Eq)]
pub enum ResolveError {
    /// The entity derives from a name that its scope does not hold.
    UnresolvedReference { level: Level, name: String },
    /// The entity derives from one that the chain has already passed.
    DerivationCycle { level: Level, name: String },
}

/// The view of an error of resolution.
pub enum ResolveErrorModel {
    UnresolvedReference { level: Level, name: Seq<char> },
    DerivationCycle { level: Level, name: Seq<char> },
}

impl View for ResolveError {
    type V = ResolveErrorModel;

    open spec fn view(&self) -> ResolveErrorModel {
        match self {
            ResolveError::UnresolvedReference { level, name } => {
                ResolveErrorModel::UnresolvedReference { level: *level, name: name@ }
            },
            ResolveError::DerivationCycle { level, name } => {
                ResolveErrorModel::DerivationCycle { level: *level, name: name@ }
            },
        }
    }
}

impl ResolveError {
    /// A copy with the same view.
    pub fn duplicate(&self) -> (res: ResolveError)
        ensures
            res@ == self@,
    {
        match self {
            ResolveError::UnresolvedReference { level, name } => ResolveError::UnresolvedReference {
                level: *level,
                name: name.clone(),
            },
            ResolveError::DerivationCycle { level, name } => ResolveError::DerivationCycle {
                level: *level,
                name: name.clone(),
            },
        }
    }
}

/// The own value where there is one, else the inherited one.
pub open spec fn or_else<T>(own: Option<T>, inherited: Option<T>) -> Option<T> {
    match own {
        Some(_) => own,
        None => inherited,
    }
}

/// The failure of a chain in a scope, as an error of resolution.
pub open spec fn failure(level: Level, links: Seq<LinkModel>, e: ChainError) -> ResolveErrorModel {
    match e {
        ChainError::Unresolved { at } => ResolveErrorModel::UnresolvedReference {
            level,
            name: links[at as int].name,
        },
        ChainError::Cycle { at } => ResolveErrorModel::DerivationCycle {
            level,
            name: links[at as int].name,
        },
    }
}

/// The names and references of the fields of a register.
pub open spec fn field_links(fields: Seq<FieldModel>) -> Seq<LinkModel> {
    Seq::new(
        fields.len(),
        |i: int| LinkModel { name: fields[i].name, derived_from: fields[i].derived_from },
    )
}

/// The names and references of the registers of a block.
pub open spec fn register_links(registers: Seq<RegisterModel>) -> Seq<LinkModel> {
    Seq::new(
        registers.len(),
        |i: int| LinkModel { name: registers[i].name, derived_from: registers[i].derived_from },
    )
}

/// The deriving field on top of its base: name and bits are its own; its
/// description, access mode and named values are its own where it states
/// them.
pub open spec fn merged_field(base: FieldModel, derived: FieldModel) -> FieldModel {
    FieldModel {
        name: derived.name,
        derived_from: None,
        description: or_else(derived.description, base.description),
        bit_range: derived.bit_range,
        access: or_else(derived.access, base.access),
        enumerated_values: or_else(derived.enumerated_values, base.enumerated_values),
        write_values: or_else(derived.write_values, base.write_values),
    }
}

/// The fields of a chain merged, the base first.
pub open spec fn flattened_field(fields: Seq<FieldModel>, chain: Seq<int>) -> FieldModel
    decreases chain.len(),
{
    if chain.len() <= 1 {
        fields[chain[0]]
    } else {
        merged_field(flattened_field(fields, chain.drop_first()), fields[chain[0]])
    }
}

/// The field at `i` with its derivation resolved inside `fields`.
pub open spec fn derived_field(fields: Seq<FieldModel>, i: int) -> Result<
    FieldModel,
    ResolveErrorModel,
> {
    match derivation_chain(field_links(fields), i) {
        Ok(chain) => Ok(flattened_field(fields, chain)),
        Err(e) => Err(failure(Level::Field, field_links(fields), e)),
    }
}

/// The first `count` fields with their derivation resolved, or the first
/// failure among them.
pub open spec fn derived_fields(fields: Seq<FieldModel>, count: int) -> Result<
    Seq<FieldModel>,
    ResolveErrorModel,
>
    decreases count,
{
    if count <= 0 {
        Ok(Seq::empty())
    } else {
        match derived_fields(fields, count - 1) {
            Err(e) => Err(e),
            Ok(done) => match derived_field(fields, count - 1) {
                Err(e) => Err(e),
                Ok(f) => Ok(done.push(f)),
            },
        }
    }
}

/// Some field of the list has the given name.
pub open spec fn has_field(fields: Seq<FieldModel>, name: Seq<char>) -> bool {
    exists|i: int| 0 <= i < fields.len() && (#[trigger] fields[i]).name == name
}

/// The fields of `base` that no field of `own` replaces, in the order of
/// `base`.
pub open spec fn inherited_fields(base: Seq<FieldModel>, own: Seq<FieldModel>) -> Seq<FieldModel>
    decreases base.len(),
{
    if base.len() == 0 {
        Seq::empty()
    } else {
        let rest = inherited_fields(base.drop_last(), own);
        if has_field(own, base.last().name) {
            rest
        } else {
            rest.push(base.last())
        }
    }
}

/// The deriving register on top of its base: name, description and offset
/// are its own; size, access mode and reset value are its own where it
/// states them; its own fields come first, then the fields of the base that
/// it does not replace by name.
pub open spec fn merged_register(base: RegisterModel, derived: RegisterModel) -> RegisterModel {
    RegisterModel {
        name: derived.name,
        derived_from: None,
        description: derived.description,
        address_offset: derived.address_offset,
        size: or_else(derived.size, base.size),
        access: or_else(derived.access, base.access),
        reset_value: or_else(derived.reset_value, base.reset_value),
        fields: match derived.fields {
            Some(own) => match base.fields {
                Some(inherited) => Some(own + inherited_fields(inherited, own)),
                None => Some(own),
            },
            None => base.fields,
        },
    }
}

/// The registers of a chain merged, the base first.
pub open spec fn flattened_register(registers: Seq<RegisterModel>, chain: Seq<int>) -> RegisterModel
    decreases chain.len(),
{
    if chain.len() <= 1 {
        registers[chain[0]]
    } else {
        merged_register(flattened_register(registers, chain.drop_first()), registers[chain[0]])
    }
}

/// A register with the derivation of its fields resolved.
pub open spec fn with_derived_fields(r: RegisterModel) -> Result<RegisterModel, ResolveErrorModel> {
    match r.fields {
        None => Ok(r),
        Some(fields) => match derived_fields(fields, fields.len() as int) {
            Err(e) => Err(e),
            Ok(resolved) => Ok(RegisterModel { fields: Some(resolved), ..r }),
        },
    }
}

/// The register at `i` with its derivation resolved inside `registers`,
/// and then that of its fields.
pub open spec fn derived_register(registers: Seq<RegisterModel>, i: int) -> Result<
    RegisterModel,
    ResolveErrorModel,
> {
    match derivation_chain(register_links(registers), i) {
        Ok(chain) => with_derived_fields(flattened_register(registers, chain)),
        Err(e) => Err(failure(Level::Register, register_links(registers), e)),
    }
}

/// The first `count` registers with their derivation resolved, or the
/// first failure among them.
pub open spec fn derived_registers(registers: Seq<RegisterModel>, count: int) -> Result<
    Seq<RegisterModel>,
    ResolveErrorModel,
>
    decreases count,
{
    if count <= 0 {
        Ok(Seq::empty())
    } else {
        match derived_registers(registers, count - 1) {
            Err(e) => Err(e),
            Ok(done) => match derived_register(registers, count - 1) {
                Err(e) => Err(e),
                Ok(r) => Ok(done.push(r)),
            },
        }
    }
}

/// A cluster with the derivation of its registers resolved, and that of
/// the clusters inside it.
pub open spec fn derived_cluster(c: ClusterModel) -> Result<ClusterModel, ResolveErrorModel>
    decreases c, 0int,
{
    match derived_registers(c.registers, c.registers.len() as int) {
        Err(e) => Err(e),
        Ok(registers) => match derived_clusters(c.clusters, c.clusters.len() as int) {
            Err(e) => Err(e),
            Ok(clusters) => Ok(ClusterModel { registers, clusters, ..c }),
        },
    }
}

/// The first `count` clusters with the derivation inside them resolved.
pub open spec fn derived_clusters(clusters: Seq<ClusterModel>, count: int) -> Result<
    Seq<ClusterModel>,
    ResolveErrorModel,
>
    decreases clusters, count,
{
    if count <= 0 || count > clusters.len() {
        Ok(Seq::empty())
    } else {
        match derived_clusters(clusters, count - 1) {
            Err(e) => Err(e),
            Ok(done) => match derived_cluster(clusters[count - 1]) {
                Err(e) => Err(e),
                Ok(c) => Ok(done.push(c)),
            },
        }
    }
}

/// A peripheral with the derivation of its registers and fields resolved:
/// first in its own registers, then in its clusters.
pub open spec fn derived_members(p: PeripheralModel) -> Result<PeripheralModel, ResolveErrorModel> {
    let registers = match p.registers {
        None => Ok(None),
        Some(registers) => match derived_registers(registers, registers.len() as int) {
            Err(e) => Err(e),
            Ok(resolved) => Ok(Some(resolved)),
        },
    };
    match registers {
        Err(e) => Err(e),
        Ok(registers) => match derived_clusters(p.clusters, p.clusters.len() as int) {
            Err(e) => Err(e),
            Ok(clusters) => Ok(PeripheralModel { registers, clusters, ..p }),
        },
    }
}

/// The own value where there is one, else the inherited one.
pub fn pick<T: Copy>(own: Option<T>, inherited: Option<T>) -> (res: Option<T>)
    ensures
        res == or_else(own, inherited),
{
    match own {
        Some(_) => own,
        None => inherited,
    }
}

/// A copy of the own text where there is one, else of the inherited one.
pub fn pick_text(own: &Option<String>, inherited: &Option<String>) -> (res: Option<String>)
    ensures
        text_of(res) == or_else(text_of(*own), text_of(*inherited)),
{
    match own {
        Some(_) => copy_text(own),
        None => copy_text(inherited),
    }
}

/// The error of resolution for a failure of a chain.
pub fn fail(level: Level, links: &Vec<Link>, e: ChainError) -> (res: ResolveError)
    requires
        match e {
            ChainError::Unresolved { at } => at < links.len(),
            ChainError::Cycle { at } => at < links.len(),
        },
    ensures
        res@ == failure(level, link_models(links@), e),
{
    match e {
        ChainError::Unresolved { at } => ResolveError::UnresolvedReference {
            level,
            name: links[at].name.clone(),
        },
        ChainError::Cycle { at } => ResolveError::DerivationCycle {
            level,
            name: links[at].name.clone(),
        },
    }
}

fn field_links_of(fields: &Vec<Field>) -> (res: Vec<Link>)
    ensures
        link_models(res@) == field_links(field_models(fields@)),
        res.len() == fields.len(),
{
    let ghost all = field_links(field_models(fields@));
    let mut res: Vec<Link> = Vec::new();
    let mut i: usize = 0;
    while i < fields.len()
        invariant
            i <= fields.len(),
            all == field_links(field_models(fields@)),
            link_models(res@) == all.take(i as int),
            res.len() == i,
        decreases fields.len() - i,
    {
        let ghost before = link_models(res@);
        let link = Link {
            name: fields[i].name.clone(),
            derived_from: copy_text(&fields[i].derived_from),
        };
        res.push(link);
        assert(link_models(res@) =~= before.push(link@));
        i += 1;
        assert(all.take(i as int) =~= before.push(link@));
    }
    assert(all.take(fields.len() as int) =~= all);
    res
}

fn register_links_of(registers: &Vec<Register>) -> (res: Vec<Link>)
    ensures
        link_models(res@) == register_links(register_models(registers@)),
        res.len() == registers.len(),
{
    let ghost all = register_links(register_models(registers@));
    let mut res: Vec<Link> = Vec::new();
    let mut i: usize = 0;
    while i < registers.len()
        invariant
            i <= registers.len(),
            all == register_links(register_models(registers@)),
            link_models(res@) == all.take(i as int),
            res.len() == i,
        decreases registers.len() - i,
    {
        let ghost before = link_models(res@);
        let link = Link {
            name: registers[i].name.clone(),
            derived_from: copy_text(&registers[i].derived_from),
        };
        res.push(link);
        assert(link_models(res@) =~= before.push(link@));
        i += 1;
        assert(all.take(i as int) =~= before.push(link@));
    }
    assert(all.take(registers.len() as int) =~= all);
    res
}

/// Merges a deriving field with its base.
pub fn merge_fields(base: &Field, derived: &Field) -> (res: Field)
    ensures
        res@ == merged_field(base@, derived@),
{
    Field {
        name: derived.name.clone(),
        derived_from: None,
        description: pick_text(&derived.description, &base.description),
        bit_range: derived.bit_range,
        access: pick(derived.access, base.access),
        enumerated_values: match &derived.enumerated_values {
            Some(_) => copy_set(&derived.enumerated_values),
            None => copy_set(&base.enumerated_values),
        },
        write_values: match &derived.write_values {
            Some(_) => copy_set(&derived.write_values),
            None => copy_set(&base.write_values),
        },
    }
}

fn flatten_field(fields: &Vec<Field>, chain: &Vec<usize>) -> (res: Field)
    requires
        chain.len() > 0,
        forall|k: int| 0 <= k < chain.len() ==> #[trigger] chain[k] < fields.len(),
    ensures
        res@ == flattened_field(field_models(fields@), positions(chain@)),
{
    let last = chain.len() - 1;
    let mut acc = fields[chain[last]].duplicate();
    let mut k: usize = last;
    assert(positions(chain@).subrange(last as int, chain.len() as int) =~= seq![
        chain[last as int] as int,
    ]);
    while k > 0
        invariant
            k < chain.len(),
            forall|h: int| 0 <= h < chain.len() ==> #[trigger] chain[h] < fields.len(),
            acc@ == flattened_field(
                field_models(fields@),
                positions(chain@).subrange(k as int, chain.len() as int),
            ),
        decreases k,
    {
        k -= 1;
        let ghost tail = positions(chain@).subrange(k as int, chain.len() as int);
        assert(tail.drop_first() =~= positions(chain@).subrange(k + 1, chain.len() as int));
        assert(tail[0] == chain[k as int] as int);
        acc = merge_fields(&acc, &fields[chain[k]]);
    }
    assert(positions(chain@).subrange(0, chain.len() as int) =~= positions(chain@));
    acc
}

proof fn lemma_fields_fault_stays(fields: Seq<FieldModel>, at: int, count: int)
    requires
        0 < at <= count,
        derived_fields(fields, at) is Err,
    ensures
        derived_fields(fields, count) == derived_fields(fields, at),
    decreases count - at,
{
    if at < count {
        lemma_fields_fault_stays(fields, at, count - 1);
    }
}

/// Resolves the derivation of each field inside a list of fields.
pub fn derive_fields(fields: &Vec<Field>) -> (res: Result<Vec<Field>, ResolveError>)
    ensures
        match derived_fields(field_models(fields@), fields.len() as int) {
            Ok(resolved) => res matches Ok(v) && field_models(v@) == resolved,
            Err(e) => res matches Err(x) && x@ == e,
        },
{
    let ghost all = field_models(fields@);
    let links = field_links_of(fields);
    let mut res: Vec<Field> = Vec::new();
    let mut i: usize = 0;
    assert(field_models(res@) =~= Seq::<FieldModel>::empty());
    while i < fields.len()
        invariant
            i <= fields.len(),
            all == field_models(fields@),
            links.len() == fields.len(),
            link_models(links@) == field_links(all),
            derived_fields(all, i as int) matches Ok(done) && field_models(res@) == done,
        decreases fields.len() - i,
    {
        let ghost before = field_models(res@);
        match follow_derivation(&links, i) {
            Ok(chain) => {
                let field = flatten_field(fields, &chain);
                res.push(field);
                assert(field_models(res@) =~= before.push(field@));
            },
            Err(e) => {
                proof {
                    lemma_chain_ends_at_base(link_models(links@), seq![i as int]);
                    assert(derived_fields(all, i + 1) is Err);
                    lemma_fields_fault_stays(all, i + 1, fields.len() as int);
                }
                return Err(fail(Level::Field, &links, e));
            },
        }
        i += 1;
    }
    Ok(res)
}

fn has_field_named(fields: &Vec<Field>, name: &String) -> (res: bool)
    ensures
        res == has_field(field_models(fields@), name@),
{
    let mut i: usize = 0;
    while i < fields.len()
        invariant
            i <= fields.len(),
            forall|j: int| 0 <= j < i ==> (#[trigger] field_models(fields@)[j]).name != name@,
        decreases fields.len() - i,
    {
        if fields[i].name == *name {
            assert(field_models(fields@)[i as int].name == name@);
            return true;
        }
        i += 1;
    }
    false
}

fn merge_field_lists(base: &Vec<Field>, own: &Vec<Field>) -> (res: Vec<Field>)
    ensures
        field_models(res@) == field_models(own@) + inherited_fields(
            field_models(base@),
            field_models(own@),
        ),
{
    let mut res = copy_fields(own);
    let mut i: usize = 0;
    assert(field_models(base@).take(0) =~= Seq::<FieldModel>::empty());
    while i < base.len()
        invariant
            i <= base.len(),
            field_models(res@) == field_models(own@) + inherited_fields(
                field_models(base@).take(i as int),
                field_models(own@),
            ),
        decreases base.len() - i,
    {
        assert(field_models(base@).take(i + 1).drop_last() =~= field_models(base@).take(i as int));
        if !has_field_named(own, &base[i].name) {
            let ghost before = field_models(res@);
            let copy = base[i].duplicate();
            res.push(copy);
            assert(field_models(res@) =~= before.push(copy@));
        }
        i += 1;
    }
    assert(field_models(base@).take(base.len() as int) =~= field_models(base@));
    res
}

/// Merges a deriving register with its base.
pub fn merge_registers(base: &Register, derived: &Register) -> (res: Register)
    ensures
        res@ == merged_register(base@, derived@),
{
    let fields = match &derived.fields {
        Some(own) => match &base.fields {
            Some(inherited) => Some(merge_field_lists(inherited, own)),
            None => Some(copy_fields(own)),
        },
        None => match &base.fields {
            Some(inherited) => Some(copy_fields(inherited)),
            None => None,
        },
    };
    Register {
        name: derived.name.clone(),
        derived_from: None,
        description: derived.description.clone(),
        address_offset: derived.address_offset,
        size: pick(derived.size, base.size),
        access: pick(derived.access, base.access),
        reset_value: pick(derived.reset_value, base.reset_value),
        fields,
    }
}

fn flatten_register(registers: &Vec<Register>, chain: &Vec<usize>) -> (res: Register)
    requires
        chain.len() > 0,
        forall|k: int| 0 <= k < chain.len() ==> #[trigger] chain[k] < registers.len(),
    ensures
        res@ == flattened_register(register_models(registers@), positions(chain@)),
{
    let last = chain.len() - 1;
    let mut acc = registers[chain[last]].duplicate();
    let mut k: usize = last;
    assert(positions(chain@).subrange(last as int, chain.len() as int) =~= seq![
        chain[last as int] as int,
    ]);
    while k > 0
        invariant
            k < chain.len(),
            forall|h: int| 0 <= h < chain.len() ==> #[trigger] chain[h] < registers.len(),
            acc@ == flattened_register(
                register_models(registers@),
                positions(chain@).subrange(k as int, chain.len() as int),
            ),
        decreases k,
    {
        k -= 1;
        let ghost tail = positions(chain@).subrange(k as int, chain.len() as int);
        assert(tail.drop_first() =~= positions(chain@).subrange(k + 1, chain.len() as int));
        assert(tail[0] == chain[k as int] as int);
        acc = merge_registers(&acc, &registers[chain[k]]);
    }
    assert(positions(chain@).subrange(0, chain.len() as int) =~= positions(chain@));
    acc
}

fn derive_fields_of(r: Register) -> (res: Result<Register, ResolveError>)
    ensures
        match with_derived_fields(r@) {
            Ok(resolved) => res matches Ok(x) && x@ == resolved,
            Err(e) => res matches Err(x) && x@ == e,
        },
{
    match &r.fields {
        None => Ok(r),
        Some(fields) => match derive_fields(fields) {
            Err(e) => Err(e),
            Ok(resolved) => Ok(
                Register {
                    name: r.name.clone(),
                    derived_from: copy_text(&r.derived_from),
                    description: r.description.clone(),
                    address_offset: r.address_offset,
                    size: r.size,
                    access: r.access,
                    reset_value: r.reset_value,
                    fields: Some(resolved),
                },
            ),
        },
    }
}

proof fn lemma_registers_fault_stays(registers: Seq<RegisterModel>, at: int, count: int)
    requires
        0 < at <= count,
        derived_registers(registers, at) is Err,
    ensures
        derived_registers(registers, count) == derived_registers(registers, at),
    decreases count - at,
{
    if at < count {
        lemma_registers_fault_stays(registers, at, count - 1);
    }
}

/// Resolves the derivation of each register inside a list of registers,
/// and that of the fields of each.
pub fn derive_registers(registers: &Vec<Register>) -> (res: Result<Vec<Register>, ResolveError>)
    ensures
        match derived_registers(register_models(registers@), registers.len() as int) {
            Ok(resolved) => res matches Ok(v) && register_models(v@) == resolved,
            Err(e) => res matches Err(x) && x@ == e,
        },
{
    let ghost all = register_models(registers@);
    let links = register_links_of(registers);
    let mut res: Vec<Register> = Vec::new();
    let mut i: usize = 0;
    assert(register_models(res@) =~= Seq::<RegisterModel>::empty());
    while i < registers.len()
        invariant
            i <= registers.len(),
            all == register_models(registers@),
            links.len() == registers.len(),
            link_models(links@) == register_links(all),
            derived_registers(all, i as int) matches Ok(done) && register_models(res@) == done,
        decreases registers.len() - i,
    {
        let ghost before = register_models(res@);
        match follow_derivation(&links, i) {
            Ok(chain) => {
                match derive_fields_of(flatten_register(registers, &chain)) {
                    Ok(register) => {
                        res.push(register);
                        assert(register_models(res@) =~= before.push(register@));
                    },
                    Err(e) => {
                        proof {
                            assert(derived_registers(all, i + 1) is Err);
                            lemma_registers_fault_stays(all, i + 1, registers.len() as int);
                        }
                        return Err(e);
                    },
                }
            },
            Err(e) => {
                proof {
                    lemma_chain_ends_at_base(link_models(links@), seq![i as int]);
                    assert(derived_registers(all, i + 1) is Err);
                    lemma_registers_fault_stays(all, i + 1, registers.len() as int);
                }
                return Err(fail(Level::Register, &links, e));
            },
        }
        i += 1;
    }
    Ok(res)
}

proof fn lemma_clusters_fault_stays(clusters: Seq<ClusterModel>, at: int, count: int)
    requires
        0 < at <= count <= clusters.len(),
        derived_clusters(clusters, at) is Err,
    ensures
        derived_clusters(clusters, count) == derived_clusters(clusters, at),
    decreases count - at,
{
    if at < count {
        lemma_clusters_fault_stays(clusters, at, count - 1);
    }
}

/// Resolves the derivation inside each cluster of a list.
pub fn derive_clusters(clusters: &Vec<Cluster>) -> (res: Result<Vec<Cluster>, ResolveError>)
    ensures
        match derived_clusters(cluster_models(clusters@), clusters.len() as int) {
            Ok(resolved) => res matches Ok(v) && cluster_models(v@) == resolved,
            Err(e) => res matches Err(x) && x@ == e,
        },
    decreases clusters,
{
    let ghost all = cluster_models(clusters@);
    let mut res: Vec<Cluster> = Vec::new();
    let mut i: usize = 0;
    assert(cluster_models(res@) =~= Seq::<ClusterModel>::empty());
    while i < clusters.len()
        invariant
            i <= clusters.len(),
            all == cluster_models(clusters@),
            derived_clusters(all, i as int) matches Ok(done) && cluster_models(res@) == done,
        decreases clusters.len() - i,
    {
        let ghost before = cluster_models(res@);
        let c = &clusters[i];
        assert(all[i as int] == c@);
        proof {
            lemma_cluster_children(*c);
        }
        let registers = match derive_registers(&c.registers) {
            Ok(registers) => registers,
            Err(e) => {
                proof {
                    assert(derived_cluster(c@) is Err);
                    assert(derived_clusters(all, i + 1) is Err);
                    lemma_clusters_fault_stays(all, i + 1, clusters.len() as int);
                }
                return Err(e);
            },
        };
        let inner = match derive_clusters(&c.clusters) {
            Ok(inner) => inner,
            Err(e) => {
                proof {
                    assert(derived_cluster(c@) is Err);
                    assert(derived_clusters(all, i + 1) is Err);
                    lemma_clusters_fault_stays(all, i + 1, clusters.len() as int);
                }
                return Err(e);
            },
        };
        let cluster = Cluster {
            name: c.name.clone(),
            description: copy_text(&c.description),
            address_offset: c.address_offset,
            defaults: c.defaults,
            registers,
            clusters: inner,
        };
        proof {
            lemma_cluster_children(cluster);
            assert(derived_cluster(c@) == Ok::<ClusterModel, ResolveErrorModel>(cluster@));
        }
        res.push(cluster);
        assert(cluster_models(res@) =~= before.push(cluster@));
        i += 1;
    }
    Ok(res)
}

/// Resolves the derivation of the registers and fields of a peripheral.
pub fn derive_members(p: &Peripheral) -> (res: Result<Peripheral, ResolveError>)
    ensures
        match derived_members(p@) {
            Ok(resolved) => res matches Ok(x) && x@ == resolved,
            Err(e) => res matches Err(x) && x@ == e,
        },
{
    let registers = match &p.registers {
        None => None,
        Some(registers) => match derive_registers(registers) {
            Ok(resolved) => Some(resolved),
            Err(e) => {
                return Err(e);
            },
        },
    };
    let clusters = match derive_clusters(&p.clusters) {
        Ok(clusters) => clusters,
        Err(e) => {
            return Err(e);
        },
    };
    Ok(
        Peripheral {
            name: p.name.clone(),
            group_name: copy_text(&p.group_name),
            description: copy_text(&p.description),
            base_address: p.base_address,
            derived_from: copy_text(&p.derived_from),
            defaults: p.defaults,
            registers,
            clusters,
        },
    )
}

/// No field of the list derives from another.
pub open spec fn plain_fields(fields: Seq<FieldModel>) -> bool {
    forall|i: int| 0 <= i < fields.len() ==> (#[trigger] fields[i]).derived_from is None
}

/// Neither the register nor any of its fields derives from another.
pub open spec fn plain_register(r: RegisterModel) -> bool {
    r.derived_from is None && (r.fields matches Some(fields) ==> plain_fields(fields))
}

/// No register of the list derives from another, nor does any of their
/// fields.
pub open spec fn plain_registers(registers: Seq<RegisterModel>) -> bool {
    forall|i: int| 0 <= i < registers.len() ==> plain_register(#[trigger] registers[i])
}

/// Nothing inside the cluster derives from anything.
pub open spec fn plain_cluster(c: ClusterModel) -> bool
    decreases c,
{
    plain_registers(c.registers) && forall|i: int|
        0 <= i < c.clusters.len() ==> plain_cluster(#[trigger] c.clusters[i])
}

/// Nothing inside the clusters of the list derives from anything.
pub open spec fn plain_clusters(clusters: Seq<ClusterModel>) -> bool {
    forall|i: int| 0 <= i < clusters.len() ==> plain_cluster(#[trigger] clusters[i])
}

/// Neither the peripheral nor anything inside it derives from anything.
pub open spec fn plain_peripheral(p: PeripheralModel) -> bool {
    &&& p.derived_from is None
    &&& p.registers matches Some(registers) ==> plain_registers(registers)
    &&& plain_clusters(p.clusters)
}

/// Among fields that derive from nothing, resolving derivation changes
/// nothing.
pub proof fn lemma_plain_fields_stay(fields: Seq<FieldModel>, count: int)
    requires
        plain_fields(fields),
        0 <= count <= fields.len(),
    ensures
        derived_fields(fields, count) == Ok::<Seq<FieldModel>, ResolveErrorModel>(
            fields.take(count),
        ),
    decreases count,
{
    if count > 0 {
        lemma_plain_fields_stay(fields, count - 1);
        lemma_chain_of_base(field_links(fields), count - 1);
        assert(fields.take(count) =~= fields.take(count - 1).push(fields[count - 1]));
    } else {
        assert(fields.take(0) =~= Seq::<FieldModel>::empty());
    }
}

/// Among registers that derive from nothing, resolving derivation changes
/// nothing.
pub proof fn lemma_plain_registers_stay(registers: Seq<RegisterModel>, count: int)
    requires
        plain_registers(registers),
        0 <= count <= registers.len(),
    ensures
        derived_registers(registers, count) == Ok::<Seq<RegisterModel>, ResolveErrorModel>(
            registers.take(count),
        ),
    decreases count,
{
    if count > 0 {
        lemma_plain_registers_stay(registers, count - 1);
        lemma_chain_of_base(register_links(registers), count - 1);
        let r = registers[count - 1];
        assert(plain_register(r));
        match r.fields {
            Some(fields) => {
                lemma_plain_fields_stay(fields, fields.len() as int);
                assert(fields.take(fields.len() as int) =~= fields);
            },
            None => {},
        }
        assert(with_derived_fields(r) == Ok::<RegisterModel, ResolveErrorModel>(r));
        assert(registers.take(count) =~= registers.take(count - 1).push(r));
    } else {
        assert(registers.take(0) =~= Seq::<RegisterModel>::empty());
    }
}

/// In a cluster in which nothing derives from anything, resolving
/// derivation changes nothing.
pub proof fn lemma_plain_cluster_stays(c: ClusterModel)
    requires
        plain_cluster(c),
    ensures
        derived_cluster(c) == Ok::<ClusterModel, ResolveErrorModel>(c),
    decreases c, 0int,
{
    lemma_plain_registers_stay(c.registers, c.registers.len() as int);
    assert(c.registers.take(c.registers.len() as int) =~= c.registers);
    lemma_plain_clusters_stay(c.clusters, c.clusters.len() as int);
    assert(c.clusters.take(c.clusters.len() as int) =~= c.clusters);
}

/// In clusters in which nothing derives from anything, resolving
/// derivation changes nothing.
pub proof fn lemma_plain_clusters_stay(clusters: Seq<ClusterModel>, count: int)
    requires
        plain_clusters(clusters),
        0 <= count <= clusters.len(),
    ensures
        derived_clusters(clusters, count) == Ok::<Seq<ClusterModel>, ResolveErrorModel>(
            clusters.take(count),
        ),
    decreases clusters, count,
{
    if count > 0 {
        lemma_plain_clusters_stay(clusters, count - 1);
        assert(plain_cluster(clusters[count - 1]));
        lemma_plain_cluster_stays(clusters[count - 1]);
        assert(clusters.take(count) =~= clusters.take(count - 1).push(clusters[count - 1]));
    } else {
        assert(clusters.take(0) =~= Seq::<ClusterModel>::empty());
    }
}

/// In a peripheral in which nothing derives from anything, resolving
/// derivation changes nothing.
pub proof fn lemma_plain_members_stay(p: PeripheralModel)
    requires
        plain_peripheral(p),
    ensures
        derived_members(p) == Ok::<PeripheralModel, ResolveErrorModel>(p),
{
    match p.registers {
        Some(registers) => {
            lemma_plain_registers_stay(registers, registers.len() as int);
            assert(registers.take(registers.len() as int) =~= registers);
        },
        None => {},
    }
    lemma_plain_clusters_stay(p.clusters, p.clusters.len() as int);
    assert(p.clusters.take(p.clusters.len() as int) =~= p.clusters);
}

proof fn lemma_flattened_field_is_plain(fields: Seq<FieldModel>, chain: Seq<int>)
    requires
        chain.len() > 0,
        fields[chain.last()].derived_from is None,
    ensures
        flattened_field(fields, chain).derived_from is None,
{
    if chain.len() <= 1 {
        assert(chain.last() == chain[0]);
    }
}

/// Fields whose derivation was resolved derive from nothing.
pub proof fn lemma_derived_fields_are_plain(fields: Seq<FieldModel>, count: int)
    requires
        0 <= count <= fields.len(),
    ensures
        derived_fields(fields, count) matches Ok(resolved) ==> plain_fields(resolved)
            && resolved.len() == count,
    decreases count,
{
    if count > 0 {
        lemma_derived_fields_are_plain(fields, count - 1);
        let links = field_links(fields);
        assert(is_trail(links, seq![count - 1]));
        lemma_chain_ends_at_base(links, seq![count - 1]);
        match derivation_chain(links, count - 1) {
            Ok(chain) => {
                lemma_flattened_field_is_plain(fields, chain);
            },
            Err(_) => {},
        }
    }
}

proof fn lemma_flattened_register_is_plain(registers: Seq<RegisterModel>, chain: Seq<int>)
    requires
        chain.len() > 0,
        registers[chain.last()].derived_from is None,
    ensures
        flattened_register(registers, chain).derived_from is None,
{
    if chain.len() <= 1 {
        assert(chain.last() == chain[0]);
    }
}

/// Registers whose derivation was resolved derive from nothing, nor do
/// their fields.
pub proof fn lemma_derived_registers_are_plain(registers: Seq<RegisterModel>, count: int)
    requires
        0 <= count <= registers.len(),
    ensures
        derived_registers(registers, count) matches Ok(resolved) ==> plain_registers(resolved)
            && resolved.len() == count,
    decreases count,
{
    if count > 0 {
        lemma_derived_registers_are_plain(registers, count - 1);
        let links = register_links(registers);
        assert(is_trail(links, seq![count - 1]));
        lemma_chain_ends_at_base(links, seq![count - 1]);
        match derivation_chain(links, count - 1) {
            Ok(chain) => {
                lemma_flattened_register_is_plain(registers, chain);
                let r = flattened_register(registers, chain);
                match r.fields {
                    Some(fields) => {
                        lemma_derived_fields_are_plain(fields, fields.len() as int);
                    },
                    None => {},
                }
            },
            Err(_) => {},
        }
    }
}

/// After its derivation was resolved, nothing inside a cluster derives
/// from anything.
pub proof fn lemma_derived_cluster_is_plain(c: ClusterModel)
    ensures
        derived_cluster(c) matches Ok(resolved) ==> plain_cluster(resolved),
    decreases c, 0int,
{
    lemma_derived_registers_are_plain(c.registers, c.registers.len() as int);
    lemma_derived_clusters_are_plain(c.clusters, c.clusters.len() as int);
}

/// After their derivation was resolved, nothing inside the clusters
/// derives from anything.
pub proof fn lemma_derived_clusters_are_plain(clusters: Seq<ClusterModel>, count: int)
    requires
        0 <= count <= clusters.len(),
    ensures
        derived_clusters(clusters, count) matches Ok(resolved) ==> plain_clusters(resolved)
            && resolved.len() == count,
    decreases clusters, count,
{
    if count > 0 {
        lemma_derived_clusters_are_plain(clusters, count - 1);
        lemma_derived_cluster_is_plain(clusters[count - 1]);
    }
}

/// After its derivation was resolved, nothing inside a peripheral derives
/// from anything.
pub proof fn lemma_derived_members_are_plain(p: PeripheralModel)
    requires
        p.derived_from is None,
    ensures
        derived_members(p) matches Ok(resolved) ==> plain_peripheral(resolved),
{
    match p.registers {
        Some(registers) => {
            lemma_derived_registers_are_plain(registers, registers.len() as int);
        },
        None => {},
    }
    lemma_derived_clusters_are_plain(p.clusters, p.clusters.len() as int);
}

} // verus!
