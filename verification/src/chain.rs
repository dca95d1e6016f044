//! Chains of derivation: each entity of a scope has a name and may derive
//! from another entity of the scope, named by `derived_from`. A chain leads
//! from an entity to the one it derives from, and on to an entity that
//! derives from none.

use vstd::prelude::*;
use crate::model::text_of;
use crate::text::lemma_distinct_positions;

verus! {

/// The name of an entity and the name of the entity it derives from.
#[derive(Clone, Debug, PartialEq, Eq)]
pub struct Link {
    pub name: String,
    pub derived_from: Option<String>,
}

/// The view of a link.
pub struct LinkModel {
    pub name: Seq<char>,
    pub derived_from: Option<Seq<char>>,
}

impl View for Link {
    type V = LinkModel;

    open spec fn view(&self) -> LinkModel {
        LinkModel { name: self.name@, derived_from: text_of(self.derived_from) }
    }
}

/// The views of a list of links.
pub open spec fn link_models(links: Seq<Link>) -> Seq<LinkModel> {
    Seq::new(links.len(), |i: int| links[i]@)
}

/// Why a chain cannot be followed to its end; `at` is the position of the
/// entity whose reference fails.
#[derive(Clone, Copy, Debug, PartialEq, Eq, Structural)]
pub enum ChainError {
    /// The entity derives from a name that the scope does not hold.
    Unresolved { at: usize },
    /// The entity derives from one that the chain has already passed.
    Cycle { at: usize },
}

/// The first position from `from` on at which an entity named `name` stands.
pub open spec fn position_from(links: Seq<LinkModel>, name: Seq<char>, from: int) -> Option<int>
    decreases links.len() - from,
{
    if from < 0 || from >= links.len() {
        None
    } else if links[from].name == name {
        Some(from)
    } else {
        position_from(links, name, from + 1)
    }
}

/// The position of the first entity named `name`.
pub open spec fn position_of(links: Seq<LinkModel>, name: Seq<char>) -> Option<int> {
    position_from(links, name, 0)
}

/// Positions of the scope, none of them twice, the last one being where the
/// chain stands.
pub open spec fn is_trail(links: Seq<LinkModel>, trail: Seq<int>) -> bool {
    &&& trail.len() > 0
    &&& trail.no_duplicates()
    &&& forall|k: int| 0 <= k < trail.len() ==> 0 <= #[trigger] trail[k] < links.len()
}

/// The chain of derivation that continues `trail`: from the entity at its
/// end to the one that entity derives from, and so on to an entity that
/// derives from none. The chain lists the positions from the deriving
/// entity to the base.
pub open spec fn chain_after(links: Seq<LinkModel>, trail: Seq<int>) -> Result<Seq<int>, ChainError>
    decreases links.len() - trail.len(),
    when is_trail(links, trail)
    via chain_after_decreases
{
    let current = trail.last();
    match links[current].derived_from {
        None => Ok(trail),
        Some(name) => match position_of(links, name) {
            None => Err(ChainError::Unresolved { at: current as usize }),
            Some(base) => if trail.contains(base) {
                Err(ChainError::Cycle { at: current as usize })
            } else {
                chain_after(links, trail.push(base))
            },
        },
    }
}

/// A position that was found lies in the scope, at or after `from`, and
/// holds the name.
pub proof fn lemma_position_in_bounds(links: Seq<LinkModel>, name: Seq<char>, from: int)
    requires
        0 <= from,
    ensures
        position_from(links, name, from) matches Some(i) ==> from <= i < links.len()
            && links[i].name == name,
    decreases links.len() - from,
{
    if from < links.len() && links[from].name != name {
        lemma_position_in_bounds(links, name, from + 1);
    }
}

proof fn lemma_trail_grows(links: Seq<LinkModel>, trail: Seq<int>, base: int)
    requires
        is_trail(links, trail),
        0 <= base < links.len(),
        !trail.contains(base),
    ensures
        is_trail(links, trail.push(base)),
        trail.len() < links.len(),
{
    let longer = trail.push(base);
    assert forall|i: int, j: int| 0 <= i < longer.len() && 0 <= j < longer.len() && i != j implies longer[i]
        != longer[j] by {
        if i < trail.len() {
            assert(trail.contains(trail[i]));
        }
        if j < trail.len() {
            assert(trail.contains(trail[j]));
        }
    }
    lemma_distinct_positions(longer, links.len());
}

#[via_fn]
proof fn chain_after_decreases(links: Seq<LinkModel>, trail: Seq<int>) {
    let current = trail.last();
    match links[current].derived_from {
        None => {},
        Some(name) => {
            lemma_position_in_bounds(links, name, 0);
            match position_of(links, name) {
                None => {},
                Some(base) => {
                    if !trail.contains(base) {
                        lemma_trail_grows(links, trail, base);
                    }
                },
            }
        },
    }
}

/// The chain of derivation that starts at the entity at `start`.
pub open spec fn derivation_chain(links: Seq<LinkModel>, start: int) -> Result<Seq<int>, ChainError> {
    chain_after(links, seq![start])
}

/// The positions of a trail as integers.
pub open spec fn positions(trail: Seq<usize>) -> Seq<int> {
    Seq::new(trail.len(), |k: int| trail[k] as int)
}

/// A chain that was followed to its end starts with the trail it continued
/// and ends at an entity that derives from none.
pub proof fn lemma_chain_ends_at_base(links: Seq<LinkModel>, trail: Seq<int>)
    requires
        is_trail(links, trail),
    ensures
        chain_after(links, trail) matches Ok(chain) ==> {
            &&& chain.len() >= trail.len()
            &&& chain.take(trail.len() as int) == trail
            &&& links[chain.last()].derived_from is None
            &&& is_trail(links, chain)
        },
        chain_after(links, trail) matches Err(e) ==> (match e {
            ChainError::Unresolved { at } => at < links.len(),
            ChainError::Cycle { at } => at < links.len(),
        }),
    decreases links.len() - trail.len(),
{
    let current = trail.last();
    match links[current].derived_from {
        None => {
            assert(trail.take(trail.len() as int) =~= trail);
        },
        Some(name) => {
            lemma_position_in_bounds(links, name, 0);
            match position_of(links, name) {
                None => {},
                Some(base) => {
                    if !trail.contains(base) {
                        lemma_trail_grows(links, trail, base);
                        lemma_chain_ends_at_base(links, trail.push(base));
                        match chain_after(links, trail.push(base)) {
                            Ok(chain) => {
                                assert(chain.take(trail.len() as int) =~= chain.take(
                                    trail.len() as int + 1,
                                ).take(trail.len() as int));
                                assert(trail.push(base).take(trail.len() as int) =~= trail);
                            },
                            Err(_) => {},
                        }
                    }
                },
            }
        },
    }
}

/// The chain of an entity that derives from none is the entity alone.
pub proof fn lemma_chain_of_base(links: Seq<LinkModel>, start: int)
    requires
        0 <= start < links.len(),
        links[start].derived_from is None,
    ensures
        derivation_chain(links, start) == Ok::<Seq<int>, ChainError>(seq![start]),
{
    assert(is_trail(links, seq![start]));
}

/// The position of the first entity of the scope with the given name.
pub fn find_link(links: &Vec<Link>, name: &String) -> (res: Option<usize>)
    ensures
        match res {
            Some(i) => position_of(link_models(links@), name@) == Some(i as int) && i < links.len(),
            None => position_of(link_models(links@), name@) is None,
        },
{
    let mut i: usize = 0;
    while i < links.len()
        invariant
            i <= links.len(),
            position_of(link_models(links@), name@) == position_from(
                link_models(links@),
                name@,
                i as int,
            ),
        decreases links.len() - i,
    {
        assert(link_models(links@)[i as int].name == links[i as int].name@);
        if links[i].name == *name {
            return Some(i);
        }
        i += 1;
    }
    None
}

fn trail_contains(trail: &Vec<usize>, position: usize) -> (res: bool)
    ensures
        res == positions(trail@).contains(position as int),
{
    let mut k: usize = 0;
    while k < trail.len()
        invariant
            k <= trail.len(),
            forall|h: int| 0 <= h < k ==> positions(trail@)[h] != position as int,
        decreases trail.len() - k,
    {
        if trail[k] == position {
            assert(positions(trail@)[k as int] == position as int);
            return true;
        }
        k += 1;
    }
    false
}

/// Follows the references from the entity at `start` to its base.
///
/// Fails with `Unresolved` at the first entity of the chain whose
/// `derived_from` names no entity of the scope, and with `Cycle` at the
/// first whose `derived_from` leads back into the chain.
pub fn follow_derivation(links: &Vec<Link>, start: usize) -> (res: Result<Vec<usize>, ChainError>)
    requires
        start < links.len(),
    ensures
        match res {
            Ok(chain) => derivation_chain(link_models(links@), start as int) == Ok::<
                Seq<int>,
                ChainError,
            >(positions(chain@)) && is_trail(link_models(links@), positions(chain@)) && chain[0]
                == start && forall|k: int| 0 <= k < chain.len() ==> #[trigger] chain[k] < links.len(),
            Err(e) => derivation_chain(link_models(links@), start as int) == Err::<
                Seq<int>,
                ChainError,
            >(e),
        },
{
    let ghost all = link_models(links@);
    let mut trail: Vec<usize> = Vec::new();
    trail.push(start);
    assert(positions(trail@) =~= seq![start as int]);
    loop
        invariant
            all == link_models(links@),
            is_trail(all, positions(trail@)),
            trail.len() <= links.len(),
            trail[0] == start,
            derivation_chain(all, start as int) == chain_after(all, positions(trail@)),
        decreases links.len() - trail.len(),
    {
        let current = trail[trail.len() - 1];
        assert(positions(trail@).last() == current as int);
        assert(0 <= positions(trail@)[trail.len() - 1] < all.len());
        assert(all[current as int] == links[current as int]@);
        match &links[current].derived_from {
            None => {
                assert forall|k: int| 0 <= k < trail.len() implies #[trigger] trail[k]
                    < links.len() by {
                    assert(0 <= positions(trail@)[k] < all.len());
                }
                return Ok(trail);
            },
            Some(name) => {
                match find_link(links, name) {
                    None => {
                        return Err(ChainError::Unresolved { at: current });
                    },
                    Some(base) => {
                        if trail_contains(&trail, base) {
                            return Err(ChainError::Cycle { at: current });
                        }
                        proof {
                            lemma_trail_grows(all, positions(trail@), base as int);
                            assert(positions(trail@.push(base)) =~= positions(trail@).push(
                                base as int,
                            ));
                        }
                        trail.push(base);
                    },
                }
            },
        }
    }
}

} // verus!
