//! Identifiers for the generated code: a name of the description is put
//! into the case of its kind, stripped of what an identifier cannot hold,
//! and told apart from the identifiers that its scope already has.

use vstd::prelude::*;
use vstd::string::*;
use crate::text::{
    decimal, lemma_decimal_digits, lemma_digits_injective, lemma_distinct_positions, push_decimal,
    views,
};

verus! {

/// What `inflections::case::to_pascal_case` makes of a text.
pub uninterp spec fn pascal_case_of(s: Seq<char>) -> Seq<char>;

/// What `inflections::case::to_snake_case` makes of a text.
pub uninterp spec fn snake_case_of(s: Seq<char>) -> Seq<char>;

/// `inflections::case::to_pascal_case`: the words of the text joined, each
/// with a capital first letter. The crate's rules for word breaks and for
/// characters that are no letters are not restated here.
#[verifier::external_body]
fn to_pascal(s: &str) -> (res: String)
    ensures
        res@ == pascal_case_of(s@),
{
    inflections::case::to_pascal_case(s)
}

/// `inflections::case::to_snake_case`: the words of the text in lower case,
/// joined by underscores.
#[verifier::external_body]
fn to_snake(s: &str) -> (res: String)
    ensures
        res@ == snake_case_of(s@),
{
    inflections::case::to_snake_case(s)
}

/// The case that a kind of identifier is written in.
#[derive(Clone, Copy, Debug, PartialEq, Eq, Structural)]
pub enum Convention {
    /// Names of types and of their variants: words joined, each capitalised.
    TypeName,
    /// Names of accessors: words in lower case, joined by underscores.
    Accessor,
}

/// The character is a decimal digit.
pub open spec fn is_digit(c: char) -> bool {
    '0' <= c && c <= '9'
}

/// The characters that an identifier may hold: ASCII letters, digits and
/// the underscore.
pub open spec fn is_identifier_char(c: char) -> bool {
    c == '_' || is_digit(c) || ('a' <= c && c <= 'z') || ('A' <= c && c <= 'Z')
}

/// The text has the shape of an identifier: it is not empty, holds only
/// identifier characters and does not start with a digit.
pub open spec fn is_identifier(s: Seq<char>) -> bool {
    &&& s.len() > 0
    &&& !is_digit(s[0])
    &&& forall|i: int| 0 <= i < s.len() ==> is_identifier_char(#[trigger] s[i])
}

/// The identifier characters of a text, in order.
pub open spec fn identifier_chars(s: Seq<char>) -> Seq<char>
    decreases s.len(),
{
    if s.len() == 0 {
        Seq::empty()
    } else if is_identifier_char(s.last()) {
        identifier_chars(s.drop_last()).push(s.last())
    } else {
        identifier_chars(s.drop_last())
    }
}

/// The text cut down to an identifier: its identifier characters, after an
/// underscore where they are none or start with a digit.
pub open spec fn identifier_shape(s: Seq<char>) -> Seq<char> {
    let kept = identifier_chars(s);
    if kept.len() == 0 || is_digit(kept[0]) {
        seq!['_'] + kept
    } else {
        kept
    }
}

/// The text in the case of a convention.
pub open spec fn in_case(s: Seq<char>, convention: Convention) -> Seq<char> {
    match convention {
        Convention::TypeName => pascal_case_of(s),
        Convention::Accessor => snake_case_of(s),
    }
}

/// The identifier for a name of the description.
pub open spec fn sanitized(name: Seq<char>, convention: Convention) -> Seq<char> {
    identifier_shape(in_case(name, convention))
}

proof fn lemma_identifier_chars(s: Seq<char>)
    ensures
        forall|i: int|
            0 <= i < identifier_chars(s).len() ==> is_identifier_char(
                #[trigger] identifier_chars(s)[i],
            ),
    decreases s.len(),
{
    if s.len() > 0 {
        lemma_identifier_chars(s.drop_last());
        let rest = identifier_chars(s.drop_last());
        assert forall|i: int| 0 <= i < identifier_chars(s).len() implies is_identifier_char(
            #[trigger] identifier_chars(s)[i],
        ) by {
            if i < rest.len() {
                assert(identifier_chars(s)[i] == rest[i]);
            }
        }
    }
}

/// What `identifier_shape` gives has the shape of an identifier.
pub proof fn lemma_shape_is_identifier(s: Seq<char>)
    ensures
        is_identifier(identifier_shape(s)),
{
    lemma_identifier_chars(s);
    let kept = identifier_chars(s);
    let shaped = identifier_shape(s);
    if kept.len() == 0 || is_digit(kept[0]) {
        assert forall|i: int| 0 <= i < shaped.len() implies is_identifier_char(
            #[trigger] shaped[i],
        ) by {
            if i > 0 {
                assert(shaped[i] == kept[i - 1]);
            }
        }
    }
}

fn keeps(c: char) -> (res: bool)
    ensures
        res == is_identifier_char(c),
{
    c == '_' || ('0' <= c && c <= '9') || ('a' <= c && c <= 'z') || ('A' <= c && c <= 'Z')
}

/// Cuts a text down to the shape of an identifier.
pub fn shape_identifier(text: &str) -> (res: String)
    ensures
        res@ == identifier_shape(text@),
        is_identifier(res@),
{
    let mut kept = String::new();
    let mut first: Option<char> = None;
    for c in it: text.chars()
        invariant
            it.seq() == text@,
            kept@ == identifier_chars(it.seq().take(it.index())),
            first is None <==> kept@.len() == 0,
            first matches Some(f) ==> kept@[0] == f,
    {
        assert(it.seq().take(it.index() + 1).drop_last() =~= it.seq().take(it.index()));
        if keeps(c) {
            if first.is_none() {
                first = Some(c);
            }
            kept.push(c);
        }
    }
    assert(text@.take(text@.len() as int) =~= text@);
    proof {
        lemma_shape_is_identifier(text@);
    }
    let needs_prefix = match first {
        None => true,
        Some(f) => '0' <= f && f <= '9',
    };
    if needs_prefix {
        let mut res = String::from_str("_");
        proof {
            reveal_strlit("_");
            assert("_"@ =~= seq!['_']);
        }
        res.append(kept.as_str());
        res
    } else {
        kept
    }
}

/// The identifier for a name of the description, in the case of its kind.
pub fn sanitize(name: &str, convention: Convention) -> (res: String)
    ensures
        res@ == sanitized(name@, convention),
        is_identifier(res@),
{
    let converted = match convention {
        Convention::TypeName => to_pascal(name),
        Convention::Accessor => to_snake(name),
    };
    shape_identifier(converted.as_str())
}

/// The candidate with the number `k` after an underscore.
pub open spec fn suffixed(candidate: Seq<char>, k: nat) -> Seq<char> {
    candidate + seq!['_'] + decimal(k)
}

/// The first number from `k` on with which the candidate is not among
/// `taken`. The search ends at the length of `taken`: as many numbers cannot
/// all be taken beside the candidate itself.
pub open spec fn free_suffix(taken: Seq<Seq<char>>, candidate: Seq<char>, k: nat) -> nat
    decreases taken.len() - k,
{
    if k >= taken.len() || !taken.contains(suffixed(candidate, k)) {
        k
    } else {
        free_suffix(taken, candidate, k + 1)
    }
}

/// The candidate itself where it is not taken, else the candidate with the
/// first free number from 1 on.
pub open spec fn told_apart(taken: Seq<Seq<char>>, candidate: Seq<char>) -> Seq<char> {
    if taken.contains(candidate) {
        suffixed(candidate, free_suffix(taken, candidate, 1))
    } else {
        candidate
    }
}

/// The identifiers for a list of candidates: each is told apart from those
/// before it, so the first to come keeps its name.
pub open spec fn unique_names(candidates: Seq<Seq<char>>) -> Seq<Seq<char>>
    decreases candidates.len(),
{
    if candidates.len() == 0 {
        Seq::empty()
    } else {
        let earlier = unique_names(candidates.drop_last());
        earlier.push(told_apart(earlier, candidates.last()))
    }
}

/// The positions of the candidates that collided with an earlier
/// identifier and got a number.
pub open spec fn renamed_positions(candidates: Seq<Seq<char>>) -> Seq<int>
    decreases candidates.len(),
{
    if candidates.len() == 0 {
        Seq::empty()
    } else {
        let earlier = renamed_positions(candidates.drop_last());
        if unique_names(candidates.drop_last()).contains(candidates.last()) {
            earlier.push(candidates.len() - 1)
        } else {
            earlier
        }
    }
}

/// The sanitized forms of a list of names.
pub open spec fn candidates_of(names: Seq<Seq<char>>, convention: Convention) -> Seq<Seq<char>> {
    Seq::new(names.len(), |i: int| sanitized(names[i], convention))
}

/// The identifiers of one scope, and which of them had to be renamed.
#[derive(Clone, Debug, PartialEq, Eq)]
pub struct Identifiers {
    /// One identifier for each name, in the order of the names.
    pub names: Vec<String>,
    /// The positions of the names whose identifier collided with an earlier
    /// one and carries a number.
    pub renamed: Vec<usize>,
}

proof fn lemma_suffixed_differ(candidate: Seq<char>, a: nat, b: nat)
    requires
        a != b,
    ensures
        suffixed(candidate, a) != suffixed(candidate, b),
        suffixed(candidate, a) != candidate,
{
    if suffixed(candidate, a) == suffixed(candidate, b) {
        let prefix = candidate.len() + 1;
        assert(suffixed(candidate, a).subrange(prefix as int, suffixed(candidate, a).len() as int)
            =~= decimal(a));
        assert(suffixed(candidate, b).subrange(prefix as int, suffixed(candidate, b).len() as int)
            =~= decimal(b));
        lemma_digits_injective(a, b, 10);
    }
    assert(suffixed(candidate, a).len() > candidate.len());
}

/// The number that the search ends at is free.
proof fn lemma_free_suffix(taken: Seq<Seq<char>>, candidate: Seq<char>, k: nat)
    requires
        taken.contains(candidate),
        1 <= k <= taken.len(),
        forall|j: nat| 1 <= j < k ==> taken.contains(#[trigger] suffixed(candidate, j)),
    ensures
        !taken.contains(suffixed(candidate, free_suffix(taken, candidate, k))),
        free_suffix(taken, candidate, k) >= 1,
    decreases taken.len() - k,
{
    if k >= taken.len() {
        if taken.contains(suffixed(candidate, k)) {
            let text = |j: int| if j == 0 { candidate } else { suffixed(candidate, j as nat) };
            let place = |j: int| choose|i: int| 0 <= i < taken.len() && taken[i] == text(j);
            let places = Seq::new(k + 1, place);
            assert forall|j: int| 0 <= j < places.len() implies 0 <= #[trigger] places[j]
                < taken.len() && taken[places[j]] == text(j) by {
                assert(taken.contains(text(j)));
            }
            assert forall|i: int, j: int|
                0 <= i < places.len() && 0 <= j < places.len() && i != j implies places[i]
                != places[j] by {
                assert(taken[places[i]] == text(i));
                assert(taken[places[j]] == text(j));
                if i == 0 {
                    lemma_suffixed_differ(candidate, j as nat, 0);
                } else if j == 0 {
                    lemma_suffixed_differ(candidate, i as nat, 0);
                } else {
                    lemma_suffixed_differ(candidate, i as nat, j as nat);
                }
            }
            lemma_distinct_positions(places, taken.len());
        }
    } else if taken.contains(suffixed(candidate, k)) {
        lemma_free_suffix(taken, candidate, k + 1);
    }
}

/// An identifier that was told apart differs from all that were taken.
pub proof fn lemma_told_apart_is_new(taken: Seq<Seq<char>>, candidate: Seq<char>)
    ensures
        !taken.contains(told_apart(taken, candidate)),
{
    if taken.contains(candidate) {
        lemma_free_suffix(taken, candidate, 1);
    }
}

/// A candidate of identifier shape keeps that shape when it is told apart.
pub proof fn lemma_told_apart_is_identifier(taken: Seq<Seq<char>>, candidate: Seq<char>)
    requires
        is_identifier(candidate),
    ensures
        is_identifier(told_apart(taken, candidate)),
{
    if taken.contains(candidate) {
        let k = free_suffix(taken, candidate, 1);
        lemma_decimal_digits(k);
        let res = suffixed(candidate, k);
        assert forall|i: int| 0 <= i < res.len() implies is_identifier_char(#[trigger] res[i]) by {
            if i < candidate.len() {
                assert(res[i] == candidate[i]);
            } else if i > candidate.len() {
                assert(res[i] == decimal(k)[i - candidate.len() - 1]);
            }
        }
        assert(res[0] == candidate[0]);
    }
}

/// The identifiers of a scope are pairwise different, whatever the
/// candidates were.
pub proof fn lemma_unique_names_differ(candidates: Seq<Seq<char>>)
    ensures
        unique_names(candidates).len() == candidates.len(),
        unique_names(candidates).no_duplicates(),
    decreases candidates.len(),
{
    if candidates.len() > 0 {
        let earlier = unique_names(candidates.drop_last());
        lemma_unique_names_differ(candidates.drop_last());
        lemma_told_apart_is_new(earlier, candidates.last());
        let all = unique_names(candidates);
        assert forall|i: int, j: int| 0 <= i < all.len() && 0 <= j < all.len() && i != j implies all[i]
            != all[j] by {
            if i < earlier.len() {
                assert(earlier.contains(all[i]));
            }
            if j < earlier.len() {
                assert(earlier.contains(all[j]));
            }
        }
    }
}

/// A candidate that no earlier candidate and no earlier identifier equals
/// keeps its name: the identifier of the first name of a scope is its
/// candidate.
pub proof fn lemma_first_keeps_its_name(candidates: Seq<Seq<char>>)
    requires
        candidates.len() > 0,
    ensures
        unique_names(candidates.take(1)) == seq![candidates[0]],
{
    let first = candidates.take(1);
    assert(first.drop_last() =~= Seq::<Seq<char>>::empty());
    assert(unique_names(first.drop_last()) =~= Seq::<Seq<char>>::empty());
    assert(unique_names(first) =~= seq![candidates[0]]);
}

fn is_taken(taken: &Vec<String>, text: &String) -> (res: bool)
    ensures
        res == views(taken@).contains(text@),
{
    let mut i: usize = 0;
    while i < taken.len()
        invariant
            i <= taken.len(),
            forall|j: int| 0 <= j < i ==> views(taken@)[j] != text@,
        decreases taken.len() - i,
    {
        if taken[i] == *text {
            assert(views(taken@)[i as int] == text@);
            return true;
        }
        i += 1;
    }
    false
}

fn with_suffix(candidate: &String, k: usize) -> (res: String)
    ensures
        res@ == suffixed(candidate@, k as nat),
{
    let mut res = candidate.clone();
    res.push('_');
    push_decimal(&mut res, k as u64);
    res
}

/// Tells a candidate apart from the identifiers that are taken.
pub fn tell_apart(taken: &Vec<String>, candidate: String) -> (res: String)
    ensures
        res@ == told_apart(views(taken@), candidate@),
        !views(taken@).contains(res@),
{
    proof {
        lemma_told_apart_is_new(views(taken@), candidate@);
    }
    if !is_taken(taken, &candidate) {
        return candidate;
    }
    let mut k: usize = 1;
    loop
        invariant
            1 <= k <= taken.len(),
            views(taken@).contains(candidate@),
            !views(taken@).contains(told_apart(views(taken@), candidate@)),
            free_suffix(views(taken@), candidate@, 1) == free_suffix(
                views(taken@),
                candidate@,
                k as nat,
            ),
        decreases taken.len() - k,
    {
        let attempt = with_suffix(&candidate, k);
        if k >= taken.len() || !is_taken(taken, &attempt) {
            return attempt;
        }
        k += 1;
    }
}

/// The positions as integers.
pub open spec fn as_positions(v: Seq<usize>) -> Seq<int> {
    Seq::new(v.len(), |i: int| v[i] as int)
}

/// Tells each candidate apart from those before it. `renamed` reports the
/// positions of the candidates that got a number.
pub fn tell_all_apart(candidates: Vec<String>) -> (res: Identifiers)
    ensures
        views(res.names@) == unique_names(views(candidates@)),
        as_positions(res.renamed@) == renamed_positions(views(candidates@)),
        res.names.len() == candidates.len(),
        forall|k: int| 0 <= k < res.renamed.len() ==> #[trigger] res.renamed[k] < candidates.len(),
        views(res.names@).no_duplicates(),
        (forall|i: int| 0 <= i < candidates.len() ==> is_identifier(#[trigger] views(candidates@)[i]))
            ==> (forall|i: int|
            0 <= i < res.names.len() ==> is_identifier(#[trigger] views(res.names@)[i])),
{
    let ghost all = views(candidates@);
    let mut idents: Vec<String> = Vec::new();
    let mut renamed: Vec<usize> = Vec::new();
    let mut i: usize = 0;
    assert(all.take(0) =~= Seq::<Seq<char>>::empty());
    while i < candidates.len()
        invariant
            i <= candidates.len(),
            all == views(candidates@),
            views(idents@) == unique_names(all.take(i as int)),
            as_positions(renamed@) == renamed_positions(all.take(i as int)),
            idents.len() == i,
            forall|k: int| 0 <= k < renamed.len() ==> #[trigger] renamed[k] < i,
            (forall|j: int| 0 <= j < candidates.len() ==> is_identifier(#[trigger] all[j])) ==> (
            forall|j: int| 0 <= j < idents.len() ==> is_identifier(#[trigger] views(idents@)[j])),
        decreases candidates.len() - i,
    {
        let candidate = candidates[i].clone();
        assert(all.take(i + 1).drop_last() =~= all.take(i as int));
        assert(all.take(i + 1).last() == candidate@);
        let ghost earlier = views(idents@);
        if is_taken(&idents, &candidate) {
            let ghost before = as_positions(renamed@);
            renamed.push(i);
            assert(as_positions(renamed@) =~= before.push(i as int));
        }
        proof {
            if is_identifier(candidate@) {
                lemma_told_apart_is_identifier(earlier, candidate@);
            }
        }
        let ident = tell_apart(&idents, candidate);
        idents.push(ident);
        assert(views(idents@) =~= earlier.push(ident@));
        i += 1;
    }
    assert(all.take(candidates.len() as int) =~= all);
    proof {
        lemma_unique_names_differ(all);
    }
    Identifiers { names: idents, renamed }
}

/// The identifiers for the names of one scope, in the case of their kind.
/// Two names that come to the same identifier are told apart by a number
/// after the later one; `renamed` reports each such name.
pub fn unique_identifiers(names: &Vec<String>, convention: Convention) -> (res: Identifiers)
    ensures
        views(res.names@) == unique_names(candidates_of(views(names@), convention)),
        as_positions(res.renamed@) == renamed_positions(candidates_of(views(names@), convention)),
        res.names.len() == names.len(),
        forall|k: int| 0 <= k < res.renamed.len() ==> #[trigger] res.renamed[k] < names.len(),
        views(res.names@).no_duplicates(),
        forall|i: int| 0 <= i < res.names.len() ==> is_identifier(#[trigger] views(res.names@)[i]),
{
    let ghost wanted = candidates_of(views(names@), convention);
    let mut candidates: Vec<String> = Vec::new();
    let mut i: usize = 0;
    while i < names.len()
        invariant
            i <= names.len(),
            wanted == candidates_of(views(names@), convention),
            views(candidates@) == wanted.take(i as int),
            forall|j: int| 0 <= j < candidates.len() ==> is_identifier(#[trigger] views(candidates@)[j]),
        decreases names.len() - i,
    {
        let ghost before = views(candidates@);
        let candidate = sanitize(names[i].as_str(), convention);
        candidates.push(candidate);
        assert(views(candidates@) =~= before.push(candidate@));
        i += 1;
        assert(wanted.take(i as int) =~= before.push(candidate@));
    }
    assert(wanted.take(names.len() as int) =~= wanted);
    tell_all_apart(candidates)
}

} // verus!
