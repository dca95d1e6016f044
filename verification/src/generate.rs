//! The entry point of generation: for all peripherals the table of their
//! base addresses; for a pattern the code units of the one peripheral that
//! the pattern selects, resolved, laid out and emitted.

use vstd::prelude::*;
use crate::emit::{emit_peripheral, peripheral_units, EmitError, EmitErrorModel};
use crate::model::{Defaults, Device, DeviceModel, Peripheral, PeripheralModel};
use crate::report::{collision_models, collisions, peripheral_collisions, Collision, CollisionModel};
use crate::derive::{ResolveError, ResolveErrorModel};
use crate::resolve::{resolve, resolved};
use crate::select::{address_lines, address_table, select_peripheral, selection};
use crate::text::views;

verus! {

/// What to generate code for.
#[derive(Clone, Debug, PartialEq, Eq)]
pub enum Selector {
    /// Every peripheral: the table of base addresses.
    All,
    /// The peripheral whose name the pattern matches.
    Pattern(String),
}

/// The view of a selector.
pub enum SelectorModel {
    All,
    Pattern(Seq<char>),
}

impl View for Selector {
    type V = SelectorModel;

    open spec fn view(&self) -> SelectorModel {
        match self {
            Selector::All => SelectorModel::All,
            Selector::Pattern(p) => SelectorModel::Pattern(p@),
        }
    }
}

/// Why nothing was generated for the selected peripheral.
#[derive(Clone, Debug, PartialEq, Eq)]
pub enum GenerateError {
    Resolve(ResolveError),
    Emit(EmitError),
}

/// The view of an error of generation.
pub enum GenerateErrorModel {
    Resolve(ResolveErrorModel),
    Emit(EmitErrorModel),
}

impl View for GenerateError {
    type V = GenerateErrorModel;

    open spec fn view(&self) -> GenerateErrorModel {
        match self {
            GenerateError::Resolve(e) => GenerateErrorModel::Resolve(e@),
            GenerateError::Emit(e) => GenerateErrorModel::Emit(e@),
        }
    }
}

/// What was generated: the code units in order, the position of the
/// peripheral that a pattern selected, and the identifier collisions that
/// were resolved on the way, for the caller to log. A pattern that selects
/// no peripheral gives no units and no position.
#[derive(Clone, Debug, PartialEq, Eq)]
pub struct Generated {
    pub units: Vec<String>,
    pub selected: Option<usize>,
    pub collisions: Vec<Collision>,
}

/// The view of what was generated.
pub struct GeneratedModel {
    pub units: Seq<Seq<char>>,
    pub selected: Option<int>,
    pub collisions: Seq<CollisionModel>,
}

impl View for Generated {
    type V = GeneratedModel;

    open spec fn view(&self) -> GeneratedModel {
        GeneratedModel {
            units: views(self.units@),
            selected: match self.selected {
                Some(i) => Some(i as int),
                None => None,
            },
            collisions: collision_models(self.collisions@),
        }
    }
}

/// What generation gives for the peripheral at `position`.
pub open spec fn generated_for(device: DeviceModel, position: int) -> Result<
    GeneratedModel,
    GenerateErrorModel,
> {
    match resolved(device, position) {
        Err(e) => Err(GenerateErrorModel::Resolve(e)),
        Ok(p) => match peripheral_units(p) {
            Err(e) => Err(GenerateErrorModel::Emit(e)),
            Ok(units) => Ok(
                GeneratedModel {
                    units,
                    selected: Some(position),
                    collisions: peripheral_collisions(p),
                },
            ),
        },
    }
}

/// What generation gives for a selector.
pub open spec fn generated(device: DeviceModel, selector: SelectorModel) -> Result<
    GeneratedModel,
    GenerateErrorModel,
> {
    match selector {
        SelectorModel::All => Ok(
            GeneratedModel {
                units: address_lines(device.peripherals),
                selected: None,
                collisions: Seq::empty(),
            },
        ),
        SelectorModel::Pattern(pattern) => match selection(device.peripherals, pattern) {
            None => Ok(
                GeneratedModel { units: Seq::empty(), selected: None, collisions: Seq::empty() },
            ),
            Some(position) => generated_for(device, position),
        },
    }
}

/// The device that holds one peripheral and nothing else.
pub open spec fn alone(p: PeripheralModel, defaults: Defaults) -> DeviceModel {
    DeviceModel { name: Seq::empty(), defaults, peripherals: seq![p] }
}

/// Generates the code units of one peripheral, as if it were the only one
/// of a device with the given defaults: what it leaves open is settled from
/// them, and a reference to another peripheral cannot be followed.
pub fn gen_peripheral(p: &Peripheral, defaults: &Defaults) -> (res: Result<Vec<String>, GenerateError>)
    ensures
        match generated_for(alone(p@, *defaults), 0) {
            Ok(g) => res matches Ok(units) && views(units@) == g.units,
            Err(e) => res matches Err(x) && x@ == e,
        },
{
    let mut peripherals: Vec<Peripheral> = Vec::new();
    peripherals.push(p.duplicate());
    let device = Device { name: String::new(), defaults: *defaults, peripherals };
    assert(device@.peripherals =~= seq![p@]);
    assert(device@ == alone(p@, *defaults));
    match resolve(&device, 0) {
        Err(e) => Err(GenerateError::Resolve(e)),
        Ok(resolved) => match emit_peripheral(&resolved) {
            Err(e) => Err(GenerateError::Emit(e)),
            Ok(units) => Ok(units),
        },
    }
}

/// Generates the code units for a selector.
///
/// For all peripherals these are the declarations of their base addresses,
/// in the order of the device. For a pattern they are the units of the
/// selected peripheral; where the pattern selects none, there are no units
/// and `selected` is `None`. A peripheral that cannot be resolved or
/// emitted gives the error and no units. Identifier collisions are no
/// errors: they are resolved and listed in `collisions`. The same device
/// and selector give the same units.
pub fn generate(device: &Device, selector: &Selector) -> (res: Result<Generated, GenerateError>)
    ensures
        match generated(device@, selector@) {
            Ok(g) => res matches Ok(x) && x@ == g,
            Err(e) => res matches Err(x) && x@ == e,
        },
{
    match selector {
        Selector::All => {
            let none: Vec<Collision> = Vec::new();
            assert(collision_models(none@) =~= Seq::<CollisionModel>::empty());
            Ok(Generated { units: address_table(device), selected: None, collisions: none })
        },
        Selector::Pattern(pattern) => {
            match select_peripheral(device, pattern.as_str()) {
                None => {
                    let units: Vec<String> = Vec::new();
                    let none: Vec<Collision> = Vec::new();
                    assert(views(units@) =~= Seq::<Seq<char>>::empty());
                    assert(collision_models(none@) =~= Seq::<CollisionModel>::empty());
                    Ok(Generated { units, selected: None, collisions: none })
                },
                Some(position) => {
                    match resolve(device, position) {
                        Err(e) => Err(GenerateError::Resolve(e)),
                        Ok(p) => match emit_peripheral(&p) {
                            Err(e) => Err(GenerateError::Emit(e)),
                            Ok(units) => Ok(
                                Generated {
                                    units,
                                    selected: Some(position),
                                    collisions: collisions(&p),
                                },
                            ),
                        },
                    }
                },
            }
        },
    }
}

} // verus!
