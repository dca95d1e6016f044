//! Searching the description: a search string becomes a pattern in which
//! every character stands for both of its cases, and a peripheral matches
//! when the pattern is found in one of its names.

use vstd::prelude::*;
use vstd::string::*;
use regex::Regex;
use crate::model::{
    field_models, register_models, text_of, EnumeratedValueModel, Field, FieldModel, Peripheral,
    PeripheralModel, Register, RegisterModel,
};

verus! {

/// `regex::Regex`, a compiled regular expression. Nothing inside it is
/// visible here.
#[verifier::external_type_specification]
#[verifier::external_body]
pub struct ExRegex(regex::Regex);

/// `regex::Error`, what `Regex::new` returns for a pattern it refuses.
#[verifier::external_type_specification]
#[verifier::external_body]
pub struct ExRegexError(regex::Error);

/// What `char::to_uppercase` yields for `c`.
pub uninterp spec fn uppercase_of(c: char) -> Seq<char>;

/// What `char::to_lowercase` yields for `c`.
pub uninterp spec fn lowercase_of(c: char) -> Seq<char>;

/// The pattern text that a regex was compiled from: what `Regex::as_str`
/// returns.
pub uninterp spec fn regex_source(re: Regex) -> Seq<char>;

/// Whether `Regex::new` accepts a pattern: whether it returns a regex for
/// it and no error.
pub uninterp spec fn regex_compiles(pattern: Seq<char>) -> bool;

/// Whether a regex finds a match anywhere in `text`: what `Regex::is_match`
/// returns.
pub uninterp spec fn regex_accepts(re: Regex, text: Seq<char>) -> bool;

/// `char::to_uppercase`, collected: the upper-case mapping of `c`, which may
/// be several characters long.
#[verifier::external_body]
fn upper(c: char) -> (s: String)
    ensures
        s@ == uppercase_of(c),
{
    c.to_uppercase().collect()
}

/// `char::to_lowercase`, collected: the lower-case mapping of `c`.
#[verifier::external_body]
fn lower(c: char) -> (s: String)
    ensures
        s@ == lowercase_of(c),
{
    c.to_lowercase().collect()
}

/// `Regex::new`: whether a pattern compiles depends on the pattern alone,
/// and a regex that was compiled keeps the pattern it was given. Which
/// patterns compile is left to the engine.
#[verifier::external_body]
fn compile(pattern: &str) -> (r: Result<Regex, regex::Error>)
    ensures
        r is Ok <==> regex_compiles(pattern@),
        r matches Ok(re) ==> regex_source(re) == pattern@,
{
    Regex::new(pattern)
}

/// `Regex::is_match`.
#[verifier::external_body]
fn is_match(re: &Regex, text: &str) -> (b: bool)
    ensures
        b == regex_accepts(*re, text@),
{
    re.is_match(text)
}

/// Where the browser looks for the search string.
#[derive(Clone, Copy, Debug, PartialEq, Eq, Structural)]
pub struct SearchSettings {
    pub search_descriptions: bool,
}

/// A search pattern that the regex engine refused.
#[derive(Clone, Debug, PartialEq, Eq)]
pub struct InvalidPattern {
    pub pattern: String,
}

/// The class that stands for one character of the search string: its upper
/// case and its lower case between square brackets. A character that means
/// something inside a class, such as `^`, `-`, `]` or a backslash, is put
/// there as it is.
pub open spec fn case_class(c: char) -> Seq<char> {
    seq!['['] + uppercase_of(c) + lowercase_of(c) + seq![']']
}

/// The pattern for a search string: the classes of its characters in order.
pub open spec fn search_pattern(s: Seq<char>) -> Seq<char>
    decreases s.len(),
{
    if s.len() == 0 {
        Seq::empty()
    } else {
        search_pattern(s.drop_last()) + case_class(s.last())
    }
}

/// The pattern text for a search string.
pub fn search_pattern_text(search_string: &str) -> (res: String)
    ensures
        res@ == search_pattern(search_string@),
{
    let mut res = String::new();
    for c in it: search_string.chars()
        invariant
            it.seq() == search_string@,
            res@ == search_pattern(it.seq().take(it.index())),
    {
        let ghost before = it.seq().take(it.index());
        let ghost after = it.seq().take(it.index() + 1);
        proof {
            assert(after.drop_last() =~= before);
        }
        res.push('[');
        res.append(upper(c).as_str());
        res.append(lower(c).as_str());
        res.push(']');
        assert(res@ =~= search_pattern(before) + case_class(c));
    }
    assert(search_string@.take(search_string@.len() as int) =~= search_string@);
    res
}

/// What a compilation of `pattern` amounts to: the regex, or the pattern
/// that was refused.
pub fn pattern_outcome(pattern: String, compiled: Result<Regex, regex::Error>) -> (r: Result<
    Regex,
    InvalidPattern,
>)
    ensures
        match compiled {
            Ok(re) => r == Ok::<Regex, InvalidPattern>(re),
            Err(_) => r == Err::<Regex, InvalidPattern>(InvalidPattern { pattern }),
        },
{
    match compiled {
        Ok(re) => Ok(re),
        Err(_) => Err(InvalidPattern { pattern }),
    }
}

/// Create a regex that matches the search string in both lowercase and
/// uppercase. The pattern handed to the engine is `search_pattern` of the
/// string; the regex is returned where the engine compiles that pattern,
/// and the pattern where it does not.
pub fn create_regex(search_string: &str) -> (r: Result<Regex, InvalidPattern>)
    ensures
        r is Ok <==> regex_compiles(search_pattern(search_string@)),
        r matches Ok(re) ==> regex_source(re) == search_pattern(search_string@),
        r matches Err(e) ==> e.pattern@ == search_pattern(search_string@),
{
    let pattern = search_pattern_text(search_string);
    let compiled = compile(pattern.as_str());
    pattern_outcome(pattern, compiled)
}

/// An optional text matches when it is present and the regex accepts it.
pub open spec fn option_matches(re: Regex, s: Option<Seq<char>>) -> bool {
    s matches Some(t) && regex_accepts(re, t)
}

/// Some value among `values` has a name that the regex accepts.
pub open spec fn value_name_matches(re: Regex, values: Seq<EnumeratedValueModel>) -> bool {
    exists|i: int| 0 <= i < values.len() && regex_accepts(re, #[trigger] values[i].name)
}

/// A field matches by its name, by the name of one of its values, and with
/// `descriptions` by its description.
pub open spec fn field_matches(re: Regex, f: FieldModel, descriptions: bool) -> bool {
    regex_accepts(re, f.name) || (descriptions && option_matches(re, f.description))
        || match f.enumerated_values {
        Some(set) => value_name_matches(re, set.values),
        None => false,
    }
}

/// Some field among `fields` matches.
pub open spec fn some_field_matches(re: Regex, fields: Seq<FieldModel>, descriptions: bool) -> bool {
    exists|i: int| 0 <= i < fields.len() && field_matches(re, #[trigger] fields[i], descriptions)
}

/// A register matches by its name, by one of its fields, and with
/// `descriptions` by its description.
pub open spec fn register_matches(re: Regex, r: RegisterModel, descriptions: bool) -> bool {
    regex_accepts(re, r.name) || (descriptions && regex_accepts(re, r.description)) || match r.fields {
        Some(fields) => some_field_matches(re, fields, descriptions),
        None => false,
    }
}

/// Some register among `registers` matches.
pub open spec fn some_register_matches(
    re: Regex,
    registers: Seq<RegisterModel>,
    descriptions: bool,
) -> bool {
    exists|i: int|
        0 <= i < registers.len() && register_matches(re, #[trigger] registers[i], descriptions)
}

/// A peripheral matches by its name, by its group, by one of its registers,
/// and with `descriptions` by its description.
pub open spec fn peripheral_matches(re: Regex, p: PeripheralModel, descriptions: bool) -> bool {
    regex_accepts(re, p.name) || option_matches(re, p.group_name) || (descriptions
        && option_matches(re, p.description)) || match p.registers {
        Some(registers) => some_register_matches(re, registers, descriptions),
        None => false,
    }
}

/// Whether an optional text is present and matched.
pub fn match_option(re: &Regex, s: &Option<String>) -> (b: bool)
    ensures
        b == option_matches(*re, text_of(*s)),
{
    match s {
        Some(t) => is_match(re, t.as_str()),
        None => false,
    }
}

/// Whether a field matches: see `field_matches`.
#[verifier::loop_isolation(false)]
pub fn match_field(re: &Regex, field: &Field, settings: &SearchSettings) -> (b: bool)
    ensures
        b == field_matches(*re, field@, settings.search_descriptions),
{
    if is_match(re, field.name.as_str()) {
        return true;
    }
    if settings.search_descriptions && match_option(re, &field.description) {
        return true;
    }
    match &field.enumerated_values {
        Some(set) => {
            let mut i: usize = 0;
            while i < set.values.len()
                invariant
                    i <= set.values.len(),
                    forall|j: int| 0 <= j < i ==> !regex_accepts(*re, #[trigger] set@.values[j].name),
                decreases set.values.len() - i,
            {
                if is_match(re, set.values[i].name.as_str()) {
                    assert(regex_accepts(*re, set@.values[i as int].name));
                    return true;
                }
                i += 1;
            }
            false
        },
        None => false,
    }
}

/// Whether a register matches: see `register_matches`.
#[verifier::loop_isolation(false)]
pub fn match_register(re: &Regex, reg: &Register, settings: &SearchSettings) -> (b: bool)
    ensures
        b == register_matches(*re, reg@, settings.search_descriptions),
{
    if is_match(re, reg.name.as_str()) {
        return true;
    }
    if settings.search_descriptions && is_match(re, reg.description.as_str()) {
        return true;
    }
    match &reg.fields {
        Some(fields) => {
            let mut i: usize = 0;
            while i < fields.len()
                invariant
                    i <= fields.len(),
                    forall|j: int|
                        0 <= j < i ==> !field_matches(
                            *re,
                            #[trigger] field_models(fields@)[j],
                            settings.search_descriptions,
                        ),
                decreases fields.len() - i,
            {
                if match_field(re, &fields[i], settings) {
                    assert(field_matches(
                        *re,
                        field_models(fields@)[i as int],
                        settings.search_descriptions,
                    ));
                    assert(some_field_matches(
                        *re,
                        field_models(fields@),
                        settings.search_descriptions,
                    ));
                    return true;
                }
                i += 1;
            }
            false
        },
        None => false,
    }
}

/// Whether a peripheral matches: by its name or its group, with
/// `search_descriptions` by its description, or by one of its registers.
#[verifier::loop_isolation(false)]
pub fn match_peripheral(re: &Regex, peripheral: &Peripheral, settings: &SearchSettings) -> (b: bool)
    ensures
        b == peripheral_matches(*re, peripheral@, settings.search_descriptions),
{
    if is_match(re, peripheral.name.as_str()) || match_option(re, &peripheral.group_name) {
        return true;
    }
    if settings.search_descriptions {
        if match_option(re, &peripheral.description) {
            return true;
        }
    }
    match &peripheral.registers {
        Some(registers) => {
            let mut i: usize = 0;
            while i < registers.len()
                invariant
                    i <= registers.len(),
                    forall|j: int|
                        0 <= j < i ==> !register_matches(
                            *re,
                            #[trigger] register_models(registers@)[j],
                            settings.search_descriptions,
                        ),
                decreases registers.len() - i,
            {
                if match_register(re, &registers[i], settings) {
                    assert(register_matches(
                        *re,
                        register_models(registers@)[i as int],
                        settings.search_descriptions,
                    ));
                    assert(some_register_matches(
                        *re,
                        register_models(registers@),
                        settings.search_descriptions,
                    ));
                    return true;
                }
                i += 1;
            }
            false
        },
        None => false,
    }
}

} // verus!
