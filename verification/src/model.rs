//! The description model: a device, its peripherals, their registers and
//! clusters, the fields of a register and the named values of a field.
//!
//! Every type has a view that replaces strings and vectors by sequences; the
//! contracts of the library speak of these views.

use vstd::prelude::*;

verus! {

/// How software may access a register or a field.
#[derive(Clone, Copy, Debug, PartialEq, Eq, Structural)]
pub enum Access {
    ReadOnly,
    ReadWrite,
    ReadWriteOnce,
    WriteOnce,
    WriteOnly,
}

/// The direction that a set of named values applies to.
#[derive(Clone, Copy, Debug, PartialEq, Eq, Structural)]
pub enum Usage {
    Read,
    Write,
    ReadWrite,
}

/// Attributes that an entity hands down to what it contains.
#[derive(Clone, Copy, Debug, PartialEq, Eq, Structural)]
pub struct Defaults {
    pub size: Option<u32>,
    pub reset_value: Option<u64>,
    pub access: Option<Access>,
}

/// The bits of a register that a field occupies: `width` bits from bit
/// `offset` upwards.
#[derive(Clone, Copy, Debug, PartialEq, Eq, Structural)]
pub struct BitRange {
    pub offset: u32,
    pub width: u32,
}

/// One named value of a field.
#[derive(Clone, Debug, PartialEq, Eq)]
pub struct EnumeratedValue {
    pub name: String,
    pub description: Option<String>,
    pub value: Option<u64>,
    pub is_default: Option<bool>,
}

/// A set of named values, for reads, for writes or for both.
#[derive(Clone, Debug, PartialEq, Eq)]
pub struct EnumeratedValues {
    pub name: Option<String>,
    pub usage: Option<Usage>,
    pub values: Vec<EnumeratedValue>,
}

/// A field of a register.
#[derive(Clone, Debug, PartialEq, Eq)]
pub struct Field {
    pub name: String,
    /// The name of the field of the same register that this one takes over
    /// what it leaves open from.
    pub derived_from: Option<String>,
    pub description: Option<String>,
    pub bit_range: BitRange,
    pub access: Option<Access>,
    pub enumerated_values: Option<EnumeratedValues>,
    /// A second set, for a field whose named values differ between reads
    /// and writes.
    pub write_values: Option<EnumeratedValues>,
}

/// A register. Its offset counts from the block it stands in.
#[derive(Clone, Debug, PartialEq, Eq)]
pub struct Register {
    pub name: String,
    /// The name of the register of the same block that this one takes over
    /// what it leaves open from.
    pub derived_from: Option<String>,
    pub description: String,
    pub address_offset: u32,
    pub size: Option<u32>,
    pub access: Option<Access>,
    pub reset_value: Option<u64>,
    pub fields: Option<Vec<Field>>,
}

/// A named group of registers; the offsets of its members are relative to
/// its own.
#[derive(Debug, PartialEq, Eq)]
pub struct Cluster {
    pub name: String,
    pub description: Option<String>,
    pub address_offset: u32,
    pub defaults: Defaults,
    pub registers: Vec<Register>,
    pub clusters: Vec<Cluster>,
}

/// A peripheral: a block of registers and clusters at a base address.
#[derive(Debug, PartialEq, Eq)]
pub struct Peripheral {
    pub name: String,
    pub group_name: Option<String>,
    pub description: Option<String>,
    pub base_address: u64,
    pub derived_from: Option<String>,
    pub defaults: Defaults,
    pub registers: Option<Vec<Register>>,
    pub clusters: Vec<Cluster>,
}

/// A device: its peripherals in the order of their declaration, and the
/// defaults for what they leave open.
#[derive(Debug, PartialEq, Eq)]
pub struct Device {
    pub name: String,
    pub defaults: Defaults,
    pub peripherals: Vec<Peripheral>,
}

/// The view of a named value.
pub struct EnumeratedValueModel {
    pub name: Seq<char>,
    pub description: Option<Seq<char>>,
    pub value: Option<u64>,
    pub is_default: Option<bool>,
}

/// The view of a set of named values.
pub struct EnumeratedValuesModel {
    pub name: Option<Seq<char>>,
    pub usage: Option<Usage>,
    pub values: Seq<EnumeratedValueModel>,
}

/// The view of a field.
pub struct FieldModel {
    pub name: Seq<char>,
    pub derived_from: Option<Seq<char>>,
    pub description: Option<Seq<char>>,
    pub bit_range: BitRange,
    pub access: Option<Access>,
    pub enumerated_values: Option<EnumeratedValuesModel>,
    pub write_values: Option<EnumeratedValuesModel>,
}

/// The view of a register.
pub struct RegisterModel {
    pub name: Seq<char>,
    pub derived_from: Option<Seq<char>>,
    pub description: Seq<char>,
    pub address_offset: u32,
    pub size: Option<u32>,
    pub access: Option<Access>,
    pub reset_value: Option<u64>,
    pub fields: Option<Seq<FieldModel>>,
}

/// The view of a cluster.
pub struct ClusterModel {
    pub name: Seq<char>,
    pub description: Option<Seq<char>>,
    pub address_offset: u32,
    pub defaults: Defaults,
    pub registers: Seq<RegisterModel>,
    pub clusters: Seq<ClusterModel>,
}

/// The view of a peripheral.
pub struct PeripheralModel {
    pub name: Seq<char>,
    pub group_name: Option<Seq<char>>,
    pub description: Option<Seq<char>>,
    pub base_address: u64,
    pub derived_from: Option<Seq<char>>,
    pub defaults: Defaults,
    pub registers: Option<Seq<RegisterModel>>,
    pub clusters: Seq<ClusterModel>,
}

/// The view of a device.
pub struct DeviceModel {
    pub name: Seq<char>,
    pub defaults: Defaults,
    pub peripherals: Seq<PeripheralModel>,
}

/// The view of an optional string.
pub open spec fn text_of(s: Option<String>) -> Option<Seq<char>> {
    match s {
        Some(t) => Some(t@),
        None => None,
    }
}

impl View for EnumeratedValue {
    type V = EnumeratedValueModel;

    open spec fn view(&self) -> EnumeratedValueModel {
        EnumeratedValueModel {
            name: self.name@,
            description: text_of(self.description),
            value: self.value,
            is_default: self.is_default,
        }
    }
}

/// The views of a list of named values.
pub open spec fn value_models(values: Seq<EnumeratedValue>) -> Seq<EnumeratedValueModel> {
    Seq::new(values.len(), |i: int| values[i]@)
}

impl View for EnumeratedValues {
    type V = EnumeratedValuesModel;

    open spec fn view(&self) -> EnumeratedValuesModel {
        EnumeratedValuesModel {
            name: text_of(self.name),
            usage: self.usage,
            values: value_models(self.values@),
        }
    }
}

/// The view of an optional set of named values.
pub open spec fn set_model(set: Option<EnumeratedValues>) -> Option<EnumeratedValuesModel> {
    match set {
        Some(s) => Some(s@),
        None => None,
    }
}

impl View for Field {
    type V = FieldModel;

    open spec fn view(&self) -> FieldModel {
        FieldModel {
            name: self.name@,
            derived_from: text_of(self.derived_from),
            description: text_of(self.description),
            bit_range: self.bit_range,
            access: self.access,
            enumerated_values: set_model(self.enumerated_values),
            write_values: set_model(self.write_values),
        }
    }
}

/// The views of a list of fields.
pub open spec fn field_models(fields: Seq<Field>) -> Seq<FieldModel> {
    Seq::new(fields.len(), |i: int| fields[i]@)
}

impl View for Register {
    type V = RegisterModel;

    open spec fn view(&self) -> RegisterModel {
        RegisterModel {
            name: self.name@,
            derived_from: text_of(self.derived_from),
            description: self.description@,
            address_offset: self.address_offset,
            size: self.size,
            access: self.access,
            reset_value: self.reset_value,
            fields: match self.fields {
                Some(fields) => Some(field_models(fields@)),
                None => None,
            },
        }
    }
}

/// The views of a list of registers.
pub open spec fn register_models(registers: Seq<Register>) -> Seq<RegisterModel> {
    Seq::new(registers.len(), |i: int| registers[i]@)
}

/// The model of a cluster: its own attributes and the models of what it
/// contains.
pub open spec fn cluster_model(c: Cluster) -> ClusterModel
    decreases c,
{
    ClusterModel {
        name: c.name@,
        description: text_of(c.description),
        address_offset: c.address_offset,
        defaults: c.defaults,
        registers: register_models(c.registers@),
        clusters: Seq::new(
            c.clusters@.len(),
            |i: int|
                if 0 <= i < c.clusters@.len() {
                    cluster_model(c.clusters@[i])
                } else {
                    arbitrary()
                },
        ),
    }
}

impl View for Cluster {
    type V = ClusterModel;

    open spec fn view(&self) -> ClusterModel {
        cluster_model(*self)
    }
}

/// The views of a list of clusters.
pub open spec fn cluster_models(clusters: Seq<Cluster>) -> Seq<ClusterModel> {
    Seq::new(clusters.len(), |i: int| clusters[i]@)
}

/// The clusters in the view of a cluster are the views of its clusters.
pub proof fn lemma_cluster_children(c: Cluster)
    ensures
        c@.clusters == cluster_models(c.clusters@),
{
    assert(c@.clusters.len() == c.clusters@.len());
    assert forall|i: int| 0 <= i < c.clusters@.len() implies c@.clusters[i] == c.clusters@[i]@ by {
        assert(c.view().clusters[i] == c.clusters@[i].view());
    }
    assert(c@.clusters =~= cluster_models(c.clusters@));
}

impl View for Peripheral {
    type V = PeripheralModel;

    open spec fn view(&self) -> PeripheralModel {
        PeripheralModel {
            name: self.name@,
            group_name: text_of(self.group_name),
            description: text_of(self.description),
            base_address: self.base_address,
            derived_from: text_of(self.derived_from),
            defaults: self.defaults,
            registers: match self.registers {
                Some(registers) => Some(register_models(registers@)),
                None => None,
            },
            clusters: cluster_models(self.clusters@),
        }
    }
}

/// The views of a list of peripherals.
pub open spec fn peripheral_models(peripherals: Seq<Peripheral>) -> Seq<PeripheralModel> {
    Seq::new(peripherals.len(), |i: int| peripherals[i]@)
}

impl View for Device {
    type V = DeviceModel;

    open spec fn view(&self) -> DeviceModel {
        DeviceModel {
            name: self.name@,
            defaults: self.defaults,
            peripherals: peripheral_models(self.peripherals@),
        }
    }
}

/// A copy of an optional string.
pub fn copy_text(s: &Option<String>) -> (res: Option<String>)
    ensures
        text_of(res) == text_of(*s),
{
    match s {
        Some(t) => Some(t.clone()),
        None => None,
    }
}

impl EnumeratedValue {
    /// A copy with the same view.
    pub fn duplicate(&self) -> (res: EnumeratedValue)
        ensures
            res@ == self@,
    {
        EnumeratedValue {
            name: self.name.clone(),
            description: copy_text(&self.description),
            value: self.value,
            is_default: self.is_default,
        }
    }
}

impl EnumeratedValues {
    /// A copy with the same view.
    pub fn duplicate(&self) -> (res: EnumeratedValues)
        ensures
            res@ == self@,
    {
        let mut values: Vec<EnumeratedValue> = Vec::new();
        let mut i: usize = 0;
        while i < self.values.len()
            invariant
                i <= self.values.len(),
                value_models(values@) == value_models(self.values@).take(i as int),
            decreases self.values.len() - i,
        {
            let ghost before = value_models(values@);
            let copy = self.values[i].duplicate();
            values.push(copy);
            assert(value_models(values@) =~= before.push(copy@));
            i += 1;
            assert(value_models(self.values@).take(i as int) =~= before.push(copy@));
        }
        assert(value_models(self.values@).take(self.values.len() as int) =~= value_models(
            self.values@,
        ));
        EnumeratedValues { name: copy_text(&self.name), usage: self.usage, values }
    }
}

/// A copy of an optional set of named values.
pub fn copy_set(set: &Option<EnumeratedValues>) -> (res: Option<EnumeratedValues>)
    ensures
        set_model(res) == set_model(*set),
{
    match set {
        Some(s) => Some(s.duplicate()),
        None => None,
    }
}

impl Field {
    /// A copy with the same view.
    pub fn duplicate(&self) -> (res: Field)
        ensures
            res@ == self@,
    {
        Field {
            name: self.name.clone(),
            derived_from: copy_text(&self.derived_from),
            description: copy_text(&self.description),
            bit_range: self.bit_range,
            access: self.access,
            enumerated_values: copy_set(&self.enumerated_values),
            write_values: copy_set(&self.write_values),
        }
    }
}

/// A copy of a list of fields.
pub fn copy_fields(fields: &Vec<Field>) -> (res: Vec<Field>)
    ensures
        field_models(res@) == field_models(fields@),
{
    let mut res: Vec<Field> = Vec::new();
    let mut i: usize = 0;
    while i < fields.len()
        invariant
            i <= fields.len(),
            field_models(res@) == field_models(fields@).take(i as int),
        decreases fields.len() - i,
    {
        let ghost before = field_models(res@);
        let copy = fields[i].duplicate();
        res.push(copy);
        assert(field_models(res@) =~= before.push(copy@));
        i += 1;
        assert(field_models(fields@).take(i as int) =~= before.push(copy@));
    }
    assert(field_models(fields@).take(fields.len() as int) =~= field_models(fields@));
    res
}

impl Register {
    /// A copy with the same view.
    pub fn duplicate(&self) -> (res: Register)
        ensures
            res@ == self@,
    {
        Register {
            name: self.name.clone(),
            derived_from: copy_text(&self.derived_from),
            description: self.description.clone(),
            address_offset: self.address_offset,
            size: self.size,
            access: self.access,
            reset_value: self.reset_value,
            fields: match &self.fields {
                Some(fields) => Some(copy_fields(fields)),
                None => None,
            },
        }
    }
}

/// A copy of a list of registers.
pub fn copy_registers(registers: &Vec<Register>) -> (res: Vec<Register>)
    ensures
        register_models(res@) == register_models(registers@),
{
    let mut res: Vec<Register> = Vec::new();
    let mut i: usize = 0;
    while i < registers.len()
        invariant
            i <= registers.len(),
            register_models(res@) == register_models(registers@).take(i as int),
        decreases registers.len() - i,
    {
        let ghost before = register_models(res@);
        let copy = registers[i].duplicate();
        res.push(copy);
        assert(register_models(res@) =~= before.push(copy@));
        i += 1;
        assert(register_models(registers@).take(i as int) =~= before.push(copy@));
    }
    assert(register_models(registers@).take(registers.len() as int) =~= register_models(
        registers@,
    ));
    res
}

impl Cluster {
    /// A copy with the same view.
    pub fn duplicate(&self) -> (res: Cluster)
        ensures
            res@ == self@,
        decreases self,
    {
        let mut clusters: Vec<Cluster> = Vec::new();
        let mut i: usize = 0;
        while i < self.clusters.len()
            invariant
                i <= self.clusters.len(),
                cluster_models(clusters@) == cluster_models(self.clusters@).take(i as int),
            decreases self.clusters.len() - i,
        {
            let ghost before = cluster_models(clusters@);
            let copy = self.clusters[i].duplicate();
            clusters.push(copy);
            assert(cluster_models(clusters@) =~= before.push(copy@));
            i += 1;
            assert(cluster_models(self.clusters@).take(i as int) =~= before.push(copy@));
        }
        assert(cluster_models(self.clusters@).take(self.clusters.len() as int) =~= cluster_models(
            self.clusters@,
        ));
        let res = Cluster {
            name: self.name.clone(),
            description: copy_text(&self.description),
            address_offset: self.address_offset,
            defaults: self.defaults,
            registers: copy_registers(&self.registers),
            clusters,
        };
        proof {
            lemma_cluster_children(res);
            lemma_cluster_children(*self);
        }
        res
    }
}

/// A copy of a list of clusters.
pub fn copy_clusters(clusters: &Vec<Cluster>) -> (res: Vec<Cluster>)
    ensures
        cluster_models(res@) == cluster_models(clusters@),
{
    let mut res: Vec<Cluster> = Vec::new();
    let mut i: usize = 0;
    while i < clusters.len()
        invariant
            i <= clusters.len(),
            cluster_models(res@) == cluster_models(clusters@).take(i as int),
        decreases clusters.len() - i,
    {
        let ghost before = cluster_models(res@);
        let copy = clusters[i].duplicate();
        res.push(copy);
        assert(cluster_models(res@) =~= before.push(copy@));
        i += 1;
        assert(cluster_models(clusters@).take(i as int) =~= before.push(copy@));
    }
    assert(cluster_models(clusters@).take(clusters.len() as int) =~= cluster_models(clusters@));
    res
}

impl Peripheral {
    /// A copy with the same view.
    pub fn duplicate(&self) -> (res: Peripheral)
        ensures
            res@ == self@,
    {
        Peripheral {
            name: self.name.clone(),
            group_name: copy_text(&self.group_name),
            description: copy_text(&self.description),
            base_address: self.base_address,
            derived_from: copy_text(&self.derived_from),
            defaults: self.defaults,
            registers: match &self.registers {
                Some(registers) => Some(copy_registers(registers)),
                None => None,
            },
            clusters: copy_clusters(&self.clusters),
        }
    }
}

} // verus!
