//! The report of identifier collisions: each name of a peripheral whose
//! identifier had to be told apart from an earlier one of its scope, in the
//! order in which the emitter comes to them.

use vstd::prelude::*;
use vstd::string::*;
use crate::emit::{
    field_names, fields_of, has_shared_set, member_names, read_set, registers_of, write_set,
};
use crate::ident::{
    as_positions, renamed_positions, sanitize, sanitized, unique_names, Convention, Identifiers,
};
use crate::keywords::{escape, escaped, safe_candidates, safe_identifiers};
use crate::model::{
    cluster_models, field_models, lemma_cluster_children, register_models, Cluster, ClusterModel,
    EnumeratedValues, EnumeratedValuesModel, Field, FieldModel, Peripheral, PeripheralModel,
    Register, RegisterModel, Usage,
};
use crate::text::views;
use crate::variants::value_names;

verus! {

/// A name whose identifier collided with an earlier one of its scope.
#[derive(Clone, Debug, PartialEq, Eq)]
pub struct Collision {
    /// The type that the scope belongs to: a block, a register or a variant
    /// type.
    pub scope: String,
    /// The kind of identifier that collided.
    pub convention: Convention,
    /// The name in the description.
    pub name: String,
    /// The identifier that the name got.
    pub identifier: String,
}

/// The view of a collision.
pub struct CollisionModel {
    pub scope: Seq<char>,
    pub convention: Convention,
    pub name: Seq<char>,
    pub identifier: Seq<char>,
}

impl View for Collision {
    type V = CollisionModel;

    open spec fn view(&self) -> CollisionModel {
        CollisionModel {
            scope: self.scope@,
            convention: self.convention,
            name: self.name@,
            identifier: self.identifier@,
        }
    }
}

/// The views of a list of collisions.
pub open spec fn collision_models(collisions: Seq<Collision>) -> Seq<CollisionModel> {
    Seq::new(collisions.len(), |i: int| collisions[i]@)
}

/// The collisions among the names of one scope, in the order of the names.
pub open spec fn scope_collisions(scope: Seq<char>, names: Seq<Seq<char>>, convention: Convention) -> Seq<
    CollisionModel,
> {
    let renamed = renamed_positions(safe_candidates(names, convention));
    let identifiers = unique_names(safe_candidates(names, convention));
    Seq::new(
        renamed.len(),
        |k: int|
            CollisionModel {
                scope,
                convention,
                name: names[renamed[k]],
                identifier: identifiers[renamed[k]],
            },
    )
}

/// The collisions of both kinds among the names of one scope: those of the
/// accessors, then those of the type names.
pub open spec fn both_collisions(scope: Seq<char>, names: Seq<Seq<char>>) -> Seq<CollisionModel> {
    scope_collisions(scope, names, Convention::Accessor) + scope_collisions(
        scope,
        names,
        Convention::TypeName,
    )
}

/// The collisions among the variants of a set whose type is named `name`.
pub open spec fn set_collisions(name: Seq<char>, set: EnumeratedValuesModel) -> Seq<CollisionModel> {
    scope_collisions(name, value_names(set.values), Convention::TypeName)
}

/// The collisions in the variant types of a field whose types are named
/// `name`.
pub open spec fn field_collisions(name: Seq<char>, f: FieldModel) -> Seq<CollisionModel> {
    if has_shared_set(f) {
        set_collisions(name, f.enumerated_values->0)
    } else {
        (match read_set(f) {
            Some(set) => set_collisions(name + "Read"@, set),
            None => Seq::empty(),
        }) + (match write_set(f) {
            Some(set) => set_collisions(name + "Write"@, set),
            None => Seq::empty(),
        })
    }
}

/// The collisions in the variant types of the first `count` fields.
pub open spec fn fields_collisions(
    name: Seq<char>,
    types: Seq<Seq<char>>,
    fields: Seq<FieldModel>,
    count: int,
) -> Seq<CollisionModel>
    decreases count,
{
    if count <= 0 {
        Seq::empty()
    } else {
        fields_collisions(name, types, fields, count - 1) + field_collisions(
            name + types[count - 1],
            fields[count - 1],
        )
    }
}

/// The collisions in a register named `name`: among its fields, then in
/// their variant types.
pub open spec fn register_collisions(name: Seq<char>, r: RegisterModel) -> Seq<CollisionModel> {
    let names = field_names(fields_of(r));
    both_collisions(name, names) + fields_collisions(
        name,
        unique_names(safe_candidates(names, Convention::TypeName)),
        fields_of(r),
        fields_of(r).len() as int,
    )
}

/// The collisions in the first `count` registers of the block `block`.
pub open spec fn registers_collisions(
    block: Seq<char>,
    types: Seq<Seq<char>>,
    registers: Seq<RegisterModel>,
    count: int,
) -> Seq<CollisionModel>
    decreases count,
{
    if count <= 0 {
        Seq::empty()
    } else {
        registers_collisions(block, types, registers, count - 1) + register_collisions(
            block + types[count - 1],
            registers[count - 1],
        )
    }
}

/// The collisions in a block: among its members, in its registers, then in
/// its clusters.
pub open spec fn block_collisions(
    name: Seq<char>,
    registers: Seq<RegisterModel>,
    clusters: Seq<ClusterModel>,
) -> Seq<CollisionModel>
    decreases clusters, clusters.len() + 1,
{
    let names = member_names(registers, clusters);
    let types = unique_names(safe_candidates(names, Convention::TypeName));
    both_collisions(name, names) + registers_collisions(
        name,
        types,
        registers,
        registers.len() as int,
    ) + clusters_collisions(name, types, registers.len() as int, clusters, clusters.len() as int)
}

/// The collisions in the first `count` clusters of the block `block`.
pub open spec fn clusters_collisions(
    block: Seq<char>,
    types: Seq<Seq<char>>,
    skip: int,
    clusters: Seq<ClusterModel>,
    count: int,
) -> Seq<CollisionModel>
    decreases clusters, count,
{
    if count <= 0 || count > clusters.len() {
        Seq::empty()
    } else {
        clusters_collisions(block, types, skip, clusters, count - 1) + block_collisions(
            block + types[skip + count - 1],
            clusters[count - 1].registers,
            clusters[count - 1].clusters,
        )
    }
}

/// The collisions in a peripheral.
pub open spec fn peripheral_collisions(p: PeripheralModel) -> Seq<CollisionModel> {
    block_collisions(escaped(sanitized(p.name, Convention::TypeName)), registers_of(p), p.clusters)
}

fn push_scope(out: &mut Vec<Collision>, scope: &str, names: &Vec<String>, convention: Convention) -> (types: Vec<String>)
    ensures
        collision_models(final(out)@) == collision_models(old(out)@) + scope_collisions(
            scope@,
            views(names@),
            convention,
        ),
        views(types@) == unique_names(safe_candidates(views(names@), convention)),
        types.len() == names.len(),
{
    let Identifiers { names: identifiers, renamed } = safe_identifiers(names, convention);
    let ghost start = collision_models(out@);
    let ghost all = scope_collisions(scope@, views(names@), convention);
    let mut k: usize = 0;
    while k < renamed.len()
        invariant
            k <= renamed.len(),
            identifiers.len() == names.len(),
            forall|h: int| 0 <= h < renamed.len() ==> #[trigger] renamed[h] < names.len(),
            as_positions(renamed@) == renamed_positions(safe_candidates(views(names@), convention)),
            views(identifiers@) == unique_names(safe_candidates(views(names@), convention)),
            all == scope_collisions(scope@, views(names@), convention),
            collision_models(out@) == start + all.take(k as int),
        decreases renamed.len() - k,
    {
        let position = renamed[k];
        assert(as_positions(renamed@)[k as int] == position as int);
        assert(views(names@)[position as int] == names@[position as int]@);
        assert(views(identifiers@)[position as int] == identifiers@[position as int]@);
        let collision = Collision {
            scope: String::from_str(scope),
            convention,
            name: names[position].clone(),
            identifier: identifiers[position].clone(),
        };
        let ghost before = collision_models(out@);
        out.push(collision);
        assert(collision_models(out@) =~= before.push(collision@));
        k += 1;
        assert(all.take(k as int) =~= all.take(k - 1).push(collision@));
    }
    assert(all.take(renamed.len() as int) =~= all);
    identifiers
}

fn push_both(out: &mut Vec<Collision>, scope: &str, names: &Vec<String>) -> (types: Vec<String>)
    ensures
        collision_models(final(out)@) == collision_models(old(out)@) + both_collisions(
            scope@,
            views(names@),
        ),
        views(types@) == unique_names(safe_candidates(views(names@), Convention::TypeName)),
        types.len() == names.len(),
{
    let _ = push_scope(out, scope, names, Convention::Accessor);
    push_scope(out, scope, names, Convention::TypeName)
}

fn push_set(out: &mut Vec<Collision>, name: &str, suffix: &str, set: &EnumeratedValues)
    ensures
        collision_models(final(out)@) == collision_models(old(out)@) + set_collisions(
            name@ + suffix@,
            set@,
        ),
{
    let mut names: Vec<String> = Vec::new();
    let mut i: usize = 0;
    while i < set.values.len()
        invariant
            i <= set.values.len(),
            views(names@) == value_names(set@.values).take(i as int),
        decreases set.values.len() - i,
    {
        let ghost before = views(names@);
        let name = set.values[i].name.clone();
        names.push(name);
        assert(views(names@) =~= before.push(name@));
        i += 1;
        assert(value_names(set@.values).take(i as int) =~= before.push(name@));
    }
    assert(value_names(set@.values).take(set.values.len() as int) =~= value_names(set@.values));
    let mut scope = String::from_str(name);
    scope.append(suffix);
    let _ = push_scope(out, scope.as_str(), &names, Convention::TypeName);
}

fn push_field(out: &mut Vec<Collision>, name: &str, f: &Field)
    ensures
        collision_models(final(out)@) == collision_models(old(out)@) + field_collisions(name@, f@),
{
    let ghost before = collision_models(out@);
    let shared = f.write_values.is_none() && match &f.enumerated_values {
        Some(set) => match set.usage {
            None => true,
            Some(Usage::ReadWrite) => true,
            _ => false,
        },
        None => false,
    };
    if shared {
        match &f.enumerated_values {
            Some(set) => {
                assert(name@ + ""@ =~= name@) by {
                    reveal_strlit("");
                }
                push_set(out, name, "", set);
            },
            None => {},
        }
    } else {
        match &f.enumerated_values {
            Some(set) => {
                let write_only = match set.usage {
                    Some(Usage::Write) => true,
                    _ => false,
                };
                if !write_only {
                    push_set(out, name, "Read", set);
                }
            },
            None => {},
        }
        let ghost middle = collision_models(out@);
        assert(middle =~= before + match read_set(f@) {
            Some(set) => set_collisions(name@ + "Read"@, set),
            None => Seq::empty(),
        });
        match &f.write_values {
            Some(set) => {
                push_set(out, name, "Write", set);
            },
            None => match &f.enumerated_values {
                Some(set) => {
                    let read_only = match set.usage {
                        Some(Usage::Read) => true,
                        _ => false,
                    };
                    if !read_only {
                        push_set(out, name, "Write", set);
                    }
                },
                None => {},
            },
        }
        assert(collision_models(out@) =~= before + field_collisions(name@, f@));
    }
}

fn names_of_fields(fields: &Vec<Field>) -> (res: Vec<String>)
    ensures
        views(res@) == field_names(field_models(fields@)),
{
    let mut res: Vec<String> = Vec::new();
    let mut i: usize = 0;
    while i < fields.len()
        invariant
            i <= fields.len(),
            views(res@) == field_names(field_models(fields@)).take(i as int),
        decreases fields.len() - i,
    {
        let ghost before = views(res@);
        let name = fields[i].name.clone();
        res.push(name);
        assert(views(res@) =~= before.push(name@));
        i += 1;
        assert(field_names(field_models(fields@)).take(i as int) =~= before.push(name@));
    }
    assert(field_names(field_models(fields@)).take(fields.len() as int) =~= field_names(
        field_models(fields@),
    ));
    res
}

fn push_register(out: &mut Vec<Collision>, name: &str, r: &Register)
    ensures
        collision_models(final(out)@) == collision_models(old(out)@) + register_collisions(name@, r@),
{
    let ghost start = collision_models(out@);
    let none: Vec<Field> = Vec::new();
    let fields: &Vec<Field> = match &r.fields {
        Some(fields) => fields,
        None => &none,
    };
    assert(field_models(fields@) =~= fields_of(r@));
    let names = names_of_fields(fields);
    let types = push_both(out, name, &names);
    let ghost own = both_collisions(name@, views(names@));
    let ghost spec_types = views(types@);
    let mut k: usize = 0;
    while k < fields.len()
        invariant
            k <= fields.len(),
            field_models(fields@) == fields_of(r@),
            types.len() == fields.len(),
            spec_types == views(types@),
            collision_models(out@) == start + own + fields_collisions(
                name@,
                spec_types,
                fields_of(r@),
                k as int,
            ),
        decreases fields.len() - k,
    {
        assert(fields_of(r@)[k as int] == fields@[k as int]@);
        assert(spec_types[k as int] == types@[k as int]@);
        let mut full = String::from_str(name);
        full.append(types[k].as_str());
        let ghost before = collision_models(out@);
        push_field(out, full.as_str(), &fields[k]);
        k += 1;
        assert(collision_models(out@) =~= start + own + fields_collisions(
            name@,
            spec_types,
            fields_of(r@),
            k as int,
        ));
    }
    assert(collision_models(out@) =~= start + register_collisions(name@, r@));
}

fn names_of_members(registers: &Vec<Register>, clusters: &Vec<Cluster>) -> (res: Vec<String>)
    ensures
        views(res@) == member_names(register_models(registers@), cluster_models(clusters@)),
{
    let ghost all = member_names(register_models(registers@), cluster_models(clusters@));
    let mut res: Vec<String> = Vec::new();
    let mut i: usize = 0;
    while i < registers.len()
        invariant
            i <= registers.len(),
            all == member_names(register_models(registers@), cluster_models(clusters@)),
            views(res@) == all.take(i as int),
        decreases registers.len() - i,
    {
        let ghost before = views(res@);
        let name = registers[i].name.clone();
        res.push(name);
        assert(views(res@) =~= before.push(name@));
        i += 1;
        assert(all.take(i as int) =~= before.push(name@));
    }
    let mut j: usize = 0;
    while j < clusters.len()
        invariant
            j <= clusters.len(),
            all == member_names(register_models(registers@), cluster_models(clusters@)),
            views(res@) == all.take(registers.len() + j),
        decreases clusters.len() - j,
    {
        let ghost before = views(res@);
        let name = clusters[j].name.clone();
        res.push(name);
        assert(views(res@) =~= before.push(name@));
        assert(all[registers.len() + j] == name@);
        j += 1;
        assert(all.take(registers.len() + j) =~= before.push(name@));
    }
    assert(all.take(all.len() as int) =~= all);
    res
}

fn push_block(out: &mut Vec<Collision>, name: &str, registers: &Vec<Register>, clusters: &Vec<Cluster>)
    ensures
        collision_models(final(out)@) == collision_models(old(out)@) + block_collisions(
            name@,
            register_models(registers@),
            cluster_models(clusters@),
        ),
    decreases clusters,
{
    let ghost start = collision_models(out@);
    let ghost regs = register_models(registers@);
    let ghost clus = cluster_models(clusters@);
    let names = names_of_members(registers, clusters);
    let types = push_both(out, name, &names);
    let ghost own = both_collisions(name@, views(names@));
    let ghost spec_types = views(types@);
    let mut i: usize = 0;
    while i < registers.len()
        invariant
            i <= registers.len(),
            regs == register_models(registers@),
            types.len() == registers.len() + clusters.len(),
            spec_types == views(types@),
            collision_models(out@) == start + own + registers_collisions(
                name@,
                spec_types,
                regs,
                i as int,
            ),
        decreases registers.len() - i,
    {
        assert(spec_types[i as int] == types@[i as int]@);
        assert(regs[i as int] == registers@[i as int]@);
        let mut full = String::from_str(name);
        full.append(types[i].as_str());
        push_register(out, full.as_str(), &registers[i]);
        i += 1;
        assert(collision_models(out@) =~= start + own + registers_collisions(
            name@,
            spec_types,
            regs,
            i as int,
        ));
    }
    let ghost from_registers = registers_collisions(name@, spec_types, regs, registers.len() as int);
    let mut j: usize = 0;
    while j < clusters.len()
        invariant
            j <= clusters.len(),
            clus == cluster_models(clusters@),
            types.len() == registers.len() + clusters.len(),
            spec_types == views(types@),
            collision_models(out@) == start + own + from_registers + clusters_collisions(
                name@,
                spec_types,
                registers.len() as int,
                clus,
                j as int,
            ),
        decreases clusters.len() - j,
    {
        let c = &clusters[j];
        assert(spec_types[registers.len() + j] == types@[registers.len() + j]@);
        assert(clus[j as int] == c@);
        proof {
            lemma_cluster_children(*c);
        }
        let mut full = String::from_str(name);
        full.append(types[registers.len() + j].as_str());
        push_block(out, full.as_str(), &c.registers, &c.clusters);
        j += 1;
        assert(collision_models(out@) =~= start + own + from_registers + clusters_collisions(
            name@,
            spec_types,
            registers.len() as int,
            clus,
            j as int,
        ));
    }
    assert(collision_models(out@) =~= start + block_collisions(name@, regs, clus));
}

/// The identifier collisions in a peripheral, in the order in which the
/// emitter names things: for each block the collisions among its members,
/// then for each register those among its fields and in the variant types
/// of its fields, then the same for each cluster. Every collision was
/// resolved by a number after the later identifier; none is an error.
pub fn collisions(p: &Peripheral) -> (res: Vec<Collision>)
    ensures
        collision_models(res@) == peripheral_collisions(p@),
{
    let name = escape(sanitize(p.name.as_str(), Convention::TypeName));
    let none: Vec<Register> = Vec::new();
    let registers: &Vec<Register> = match &p.registers {
        Some(registers) => registers,
        None => &none,
    };
    assert(register_models(registers@) =~= registers_of(p@));
    let mut res: Vec<Collision> = Vec::new();
    assert(collision_models(res@) =~= Seq::<CollisionModel>::empty());
    push_block(&mut res, name.as_str(), registers, &p.clusters);
    assert(collision_models(res@) =~= peripheral_collisions(p@));
    res
}

} // verus!
