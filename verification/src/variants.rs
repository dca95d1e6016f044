//! The variant type of a set of named values: one variant for each value,
//! with an identifier of its own and the number that represents it; and the
//! passage between numbers and variants in both directions.

use vstd::prelude::*;
use crate::ident::{
    as_positions, lemma_unique_names_differ, renamed_positions, unique_names, Convention,
    Identifiers,
};
use crate::keywords::{safe_candidates, safe_identifiers};
use crate::model::{text_of, EnumeratedValueModel, EnumeratedValues};
use crate::text::views;

verus! {

/// One variant: its identifier, the number that stands for it, and whether
/// it is the default of its set.
#[derive(Clone, Debug, PartialEq, Eq)]
pub struct Variant {
    pub name: String,
    pub value: u64,
    pub is_default: bool,
}

/// The view of a variant.
pub struct VariantModel {
    pub name: Seq<char>,
    pub value: u64,
    pub is_default: bool,
}

impl View for Variant {
    type V = VariantModel;

    open spec fn view(&self) -> VariantModel {
        VariantModel { name: self.name@, value: self.value, is_default: self.is_default }
    }
}

/// The views of a list of variants.
pub open spec fn variant_models(variants: Seq<Variant>) -> Seq<VariantModel> {
    Seq::new(variants.len(), |i: int| variants[i]@)
}

/// What a number read from a field stands for.
#[derive(Clone, Copy, Debug, PartialEq, Eq, Structural)]
pub enum Decoded {
    /// The variant at this position has the number.
    Named(usize),
    /// No variant has the number; the default variant at this position
    /// stands for it.
    Default { variant: usize, raw: u64 },
    /// No variant has the number and the set has no default.
    Raw(u64),
}

/// The number of a named value: the one it states, else its position in the
/// set.
pub open spec fn representation(v: EnumeratedValueModel, position: int) -> u64 {
    match v.value {
        Some(n) => n,
        None => position as u64,
    }
}

/// The names of the values of a set.
pub open spec fn value_names(values: Seq<EnumeratedValueModel>) -> Seq<Seq<char>> {
    Seq::new(values.len(), |i: int| values[i].name)
}

/// The variants of a set: the identifiers of its names in the case of type
/// names, escaped where they are reserved words and told apart where two
/// coincide, each with its number and its default flag.
pub open spec fn variants_of(values: Seq<EnumeratedValueModel>) -> Seq<VariantModel> {
    let names = unique_names(safe_candidates(value_names(values), Convention::TypeName));
    Seq::new(
        values.len(),
        |i: int|
            VariantModel {
                name: names[i],
                value: representation(values[i], i),
                is_default: values[i].is_default == Some(true),
            },
    )
}

/// The first position from `from` on whose variant has the number `raw`.
pub open spec fn position_of_value(variants: Seq<VariantModel>, raw: u64, from: int) -> Option<int>
    decreases variants.len() - from,
{
    if from < 0 || from >= variants.len() {
        None
    } else if variants[from].value == raw {
        Some(from)
    } else {
        position_of_value(variants, raw, from + 1)
    }
}

/// The first position from `from` on whose variant is a default.
pub open spec fn position_of_default(variants: Seq<VariantModel>, from: int) -> Option<int>
    decreases variants.len() - from,
{
    if from < 0 || from >= variants.len() {
        None
    } else if variants[from].is_default {
        Some(from)
    } else {
        position_of_default(variants, from + 1)
    }
}

/// What the number `raw` stands for: the first variant that has it; where
/// none has it, the default variant; where there is none, the number
/// itself.
pub open spec fn decoded(variants: Seq<VariantModel>, raw: u64) -> Decoded {
    match position_of_value(variants, raw, 0) {
        Some(i) => Decoded::Named(i as usize),
        None => match position_of_default(variants, 0) {
            Some(i) => Decoded::Default { variant: i as usize, raw },
            None => Decoded::Raw(raw),
        },
    }
}

/// The first position from `from` on whose variant has the name `name`.
pub open spec fn position_of_name(variants: Seq<VariantModel>, name: Seq<char>, from: int) -> Option<
    int,
>
    decreases variants.len() - from,
{
    if from < 0 || from >= variants.len() {
        None
    } else if variants[from].name == name {
        Some(from)
    } else {
        position_of_name(variants, name, from + 1)
    }
}

/// The number of the variant named `name`, if there is one.
pub open spec fn encoded(variants: Seq<VariantModel>, name: Seq<char>) -> Option<u64> {
    match position_of_name(variants, name, 0) {
        Some(i) => Some(variants[i].value),
        None => None,
    }
}

/// The name of the variant that the number `raw` stands for, if it stands
/// for one.
pub open spec fn decoded_name(variants: Seq<VariantModel>, raw: u64) -> Option<Seq<char>> {
    match decoded(variants, raw) {
        Decoded::Named(i) => Some(variants[i as int].name),
        Decoded::Default { variant, raw } => Some(variants[variant as int].name),
        Decoded::Raw(_) => None,
    }
}

/// No two variants have the same name.
pub open spec fn distinct_names(variants: Seq<VariantModel>) -> bool {
    forall|i: int, j: int|
        0 <= i < variants.len() && 0 <= j < variants.len() && i != j ==> (#[trigger] variants[i]).name
            != (#[trigger] variants[j]).name
}

/// No two variants have the same number.
pub open spec fn distinct_values(variants: Seq<VariantModel>) -> bool {
    forall|i: int, j: int|
        0 <= i < variants.len() && 0 <= j < variants.len() && i != j ==> (#[trigger] variants[i]).value
            != (#[trigger] variants[j]).value
}

/// The variant type of a set of named values.
#[derive(Clone, Debug, PartialEq, Eq)]
pub struct VariantType {
    pub variants: Vec<Variant>,
    /// The positions of the values whose identifier collided with an
    /// earlier one of the set and carries a number.
    pub renamed: Vec<usize>,
}

impl VariantType {
    /// The variant type of a set: its variants, and the positions of the
    /// values whose identifier had to be told apart from an earlier one.
    pub fn new(set: &EnumeratedValues) -> (res: VariantType)
        ensures
            variant_models(res.variants@) == variants_of(set@.values),
            res.variants.len() == set.values.len(),
            as_positions(res.renamed@) == renamed_positions(
                safe_candidates(value_names(set@.values), Convention::TypeName),
            ),
            forall|k: int| 0 <= k < res.renamed.len() ==> #[trigger] res.renamed[k] < set.values.len(),
    {
        let mut names: Vec<String> = Vec::new();
        let mut i: usize = 0;
        while i < set.values.len()
            invariant
                i <= set.values.len(),
                views(names@) == value_names(set@.values).take(i as int),
            decreases set.values.len() - i,
        {
            let ghost before = views(names@);
            let name = set.values[i].name.clone();
            names.push(name);
            assert(views(names@) =~= before.push(name@));
            i += 1;
            assert(value_names(set@.values).take(i as int) =~= before.push(name@));
        }
        assert(value_names(set@.values).take(set.values.len() as int) =~= value_names(
            set@.values,
        ));
        let Identifiers { names: idents, renamed } = safe_identifiers(&names, Convention::TypeName);
        let mut variants: Vec<Variant> = Vec::new();
        let mut k: usize = 0;
        while k < set.values.len()
            invariant
                k <= set.values.len(),
                idents.len() == set.values.len(),
                views(idents@) == unique_names(
                    safe_candidates(value_names(set@.values), Convention::TypeName),
                ),
                variant_models(variants@) == variants_of(set@.values).take(k as int),
            decreases set.values.len() - k,
        {
            let ghost before = variant_models(variants@);
            let value = match set.values[k].value {
                Some(n) => n,
                None => k as u64,
            };
            let variant = Variant {
                name: idents[k].clone(),
                value,
                is_default: match set.values[k].is_default {
                    Some(flag) => flag,
                    None => false,
                },
            };
            assert(views(idents@)[k as int] == idents@[k as int]@);
            assert(set@.values[k as int] == set.values@[k as int]@);
            variants.push(variant);
            assert(variant_models(variants@) =~= before.push(variant@));
            k += 1;
            assert(variants_of(set@.values).take(k as int) =~= before.push(variant@));
        }
        assert(variants_of(set@.values).take(set.values.len() as int) =~= variants_of(
            set@.values,
        ));
        VariantType { variants, renamed }
    }

    /// The number that stands for the variant at `position`.
    pub fn encode(&self, position: usize) -> (res: Option<u64>)
        ensures
            position < self.variants.len() ==> res == Some(self.variants[position as int].value),
            position >= self.variants.len() ==> res is None,
    {
        if position < self.variants.len() {
            Some(self.variants[position].value)
        } else {
            None
        }
    }

    /// The number that stands for the variant named `name`.
    pub fn encode_named(&self, name: &String) -> (res: Option<u64>)
        ensures
            res == encoded(variant_models(self.variants@), name@),
    {
        let ghost models = variant_models(self.variants@);
        let mut i: usize = 0;
        while i < self.variants.len()
            invariant
                i <= self.variants.len(),
                models == variant_models(self.variants@),
                position_of_name(models, name@, 0) == position_of_name(models, name@, i as int),
            decreases self.variants.len() - i,
        {
            assert(models[i as int] == self.variants@[i as int]@);
            if self.variants[i].name == *name {
                return Some(self.variants[i].value);
            }
            i += 1;
        }
        None
    }

    /// The name of the variant that a number read from the field stands
    /// for: of the variant that has the number, else of the default; none
    /// where the number stands for itself.
    pub fn name_of(&self, raw: u64) -> (res: Option<String>)
        ensures
            text_of(res) == decoded_name(variant_models(self.variants@), raw),
    {
        let ghost models = variant_models(self.variants@);
        proof {
            assert(models.len() == self.variants.len());
            lemma_decoded_in_bounds(models, raw);
        }
        match self.decode(raw) {
            Decoded::Named(i) => {
                assert(models[i as int] == self.variants@[i as int]@);
                Some(self.variants[i].name.clone())
            },
            Decoded::Default { variant, raw: _ } => {
                assert(models[variant as int] == self.variants@[variant as int]@);
                Some(self.variants[variant].name.clone())
            },
            Decoded::Raw(_) => None,
        }
    }

    /// What a number read from the field stands for.
    pub fn decode(&self, raw: u64) -> (res: Decoded)
        ensures
            res == decoded(variant_models(self.variants@), raw),
    {
        let ghost models = variant_models(self.variants@);
        let mut i: usize = 0;
        while i < self.variants.len()
            invariant
                i <= self.variants.len(),
                models == variant_models(self.variants@),
                position_of_value(models, raw, 0) == position_of_value(models, raw, i as int),
            decreases self.variants.len() - i,
        {
            assert(models[i as int] == self.variants@[i as int]@);
            if self.variants[i].value == raw {
                return Decoded::Named(i);
            }
            i += 1;
        }
        let mut k: usize = 0;
        while k < self.variants.len()
            invariant
                k <= self.variants.len(),
                models == variant_models(self.variants@),
                position_of_value(models, raw, 0) is None,
                position_of_default(models, 0) == position_of_default(models, k as int),
            decreases self.variants.len() - k,
        {
            assert(models[k as int] == self.variants@[k as int]@);
            if self.variants[k].is_default {
                return Decoded::Default { variant: k, raw };
            }
            k += 1;
        }
        Decoded::Raw(raw)
    }
}

proof fn lemma_value_in_bounds(variants: Seq<VariantModel>, raw: u64, from: int)
    requires
        0 <= from,
    ensures
        position_of_value(variants, raw, from) matches Some(i) ==> from <= i < variants.len(),
    decreases variants.len() - from,
{
    if from < variants.len() && variants[from].value != raw {
        lemma_value_in_bounds(variants, raw, from + 1);
    }
}

proof fn lemma_default_in_bounds(variants: Seq<VariantModel>, from: int)
    requires
        0 <= from,
    ensures
        position_of_default(variants, from) matches Some(i) ==> from <= i < variants.len(),
    decreases variants.len() - from,
{
    if from < variants.len() && !variants[from].is_default {
        lemma_default_in_bounds(variants, from + 1);
    }
}

/// A number is decoded as a variant of the type or as itself.
pub proof fn lemma_decoded_in_bounds(variants: Seq<VariantModel>, raw: u64)
    requires
        variants.len() <= usize::MAX,
    ensures
        match decoded(variants, raw) {
            Decoded::Named(i) => i < variants.len(),
            Decoded::Default { variant, raw } => variant < variants.len(),
            Decoded::Raw(_) => true,
        },
{
    lemma_value_in_bounds(variants, raw, 0);
    lemma_default_in_bounds(variants, 0);
}

proof fn lemma_position_of_name(variants: Seq<VariantModel>, position: int, from: int)
    requires
        distinct_names(variants),
        0 <= from <= position < variants.len(),
    ensures
        position_of_name(variants, variants[position].name, from) == Some(position),
    decreases position - from,
{
    if from < position {
        lemma_position_of_name(variants, position, from + 1);
    }
}

/// The variants of a set have different names, whatever the names of the
/// values were.
pub proof fn lemma_variant_names_differ(values: Seq<EnumeratedValueModel>)
    ensures
        distinct_names(variants_of(values)),
{
    lemma_unique_names_differ(safe_candidates(value_names(values), Convention::TypeName));
}

/// Names survive the round trip: where no two variants share a number or a
/// name, the name of a variant is encoded as its number, and that number is
/// decoded as the same name.
pub proof fn lemma_names_round_trip(variants: Seq<VariantModel>, position: int)
    requires
        distinct_values(variants),
        distinct_names(variants),
        0 <= position < variants.len() <= usize::MAX,
    ensures
        encoded(variants, variants[position].name) == Some(variants[position].value),
        decoded_name(variants, variants[position].value) == Some(variants[position].name),
{
    lemma_position_of_name(variants, position, 0);
    lemma_position_of_value(variants, position, 0);
}

proof fn lemma_position_of_value(variants: Seq<VariantModel>, position: int, from: int)
    requires
        distinct_values(variants),
        0 <= from <= position < variants.len(),
    ensures
        position_of_value(variants, variants[position].value, from) == Some(position),
    decreases position - from,
{
    if from < position {
        lemma_position_of_value(variants, position, from + 1);
    }
}

/// Encoding and decoding agree: where no two variants share a number, the
/// number of a variant is decoded as that variant, with its name, whether
/// or not the set has a default and whether or not the value stated its
/// number.
pub proof fn lemma_decode_inverts_encode(variants: Seq<VariantModel>, position: int)
    requires
        distinct_values(variants),
        0 <= position < variants.len(),
    ensures
        decoded(variants, variants[position].value) == Decoded::Named(position as usize),
{
    lemma_position_of_value(variants, position, 0);
}

} // verus!
