//! Drawing a name: two distinct adjectives and one animal, by index, and the
//! words and the string that the indices stand for.

use crate::source::IndexSource;
use crate::store::{GoofyAnimals, WordLists};
use vstd::prelude::*;
use vstd::string::StringExecFns;

verus! {

/// The most pairs of adjective indices that `generate_name_parts` and
/// `generate_name` draw before they give up.
pub const MAX_ATTEMPTS: usize = usize::MAX;

/// The three indices behind one name.
#[derive(Clone, Copy, Debug, PartialEq, Eq, Structural)]
pub struct Draw {
    /// Index of the first adjective.
    pub adjective_one: usize,
    /// Index of the second adjective.
    pub adjective_two: usize,
    /// Index of the animal.
    pub animal: usize,
}

/// Three words with a hyphen between each two, and nothing else.
pub open spec fn joined(adjective_one: Seq<char>, adjective_two: Seq<char>, animal: Seq<char>) -> Seq<
    char,
> {
    adjective_one + seq!['-'] + adjective_two + seq!['-'] + animal
}

impl WordLists {
    /// The indices of `draw` lie in their lists.
    pub open spec fn covers(self, draw: Draw) -> bool {
        &&& draw.adjective_one < self.adjectives.len()
        &&& draw.adjective_two < self.adjectives.len()
        &&& draw.animal < self.animals.len()
    }

    /// `draw` is one that name generation may yield: its indices lie in their
    /// lists and the two adjective indices differ.
    pub open spec fn admits(self, draw: Draw) -> bool {
        self.covers(draw) && draw.adjective_one != draw.adjective_two
    }

    /// The words at the indices of `draw`: first adjective, second adjective,
    /// animal.
    pub open spec fn name_parts(self, draw: Draw) -> (Seq<char>, Seq<char>, Seq<char>) {
        (
            self.adjectives[draw.adjective_one as int],
            self.adjectives[draw.adjective_two as int],
            self.animals[draw.animal as int],
        )
    }

    /// The name that `draw` stands for.
    pub open spec fn name(self, draw: Draw) -> Seq<char> {
        joined(self.name_parts(draw).0, self.name_parts(draw).1, self.name_parts(draw).2)
    }

    /// `first` can be asked for a pair of adjective indices, hand out `one`
    /// and stand as `between`, then hand out `two` and stand as `last`.
    pub open spec fn hands_out_pair<R: IndexSource>(
        self,
        first: R,
        one: usize,
        between: R,
        two: usize,
        last: R,
    ) -> bool {
        &&& first.yields(self.adjectives.len() as usize, one, &between)
        &&& between.yields(self.adjectives.len() as usize, two, &last)
    }

    /// `first` can be asked for `count` pairs of adjective indices, one pair
    /// after the other, hand out the same index twice in every pair, and
    /// stand as `last` afterwards.
    pub open spec fn collides<R: IndexSource>(self, first: R, count: nat, last: R) -> bool
        decreases count,
    {
        if count == 0 {
            last == first
        } else {
            exists|before: R, index: usize, between: R|
                {
                    &&& self.collides(first, (count - 1) as nat, before)
                    &&& #[trigger] self.hands_out_pair(before, index, between, index, last)
                }
        }
    }

    /// `first` can be asked for a pair of adjective indices and then for an
    /// animal's index, hand out the indices of `draw` in that order, and stand
    /// as `last` afterwards.
    pub open spec fn hands_out<R: IndexSource>(self, first: R, draw: Draw, last: R) -> bool {
        exists|second: R, third: R|
            {
                &&& #[trigger] self.hands_out_pair(
                    first,
                    draw.adjective_one,
                    second,
                    draw.adjective_two,
                    third,
                )
                &&& third.yields(self.animals.len() as usize, draw.animal, &last)
            }
    }

    /// What drawing with at most `attempts` pairs can come to, from a source
    /// that stands as `first`. With `Some(draw)`: fewer than `attempts` pairs
    /// collided, then the source handed out the indices of `draw`, whose
    /// adjective indices differ. With `None`: `attempts` pairs collided and no
    /// animal was asked for. Either way the source stands as `last`.
    pub open spec fn draws<R: IndexSource>(
        self,
        first: R,
        attempts: usize,
        result: Option<Draw>,
        last: R,
    ) -> bool {
        match result {
            Some(draw) => {
                &&& self.admits(draw)
                &&& exists|failed: nat, before: R|
                    {
                        &&& failed < attempts
                        &&& #[trigger] self.collides(first, failed, before)
                        &&& self.hands_out(before, draw, last)
                    }
            },
            None => self.collides(first, attempts as nat, last),
        }
    }
}

/// Joins the three words with hyphens.
pub fn join_name(adjective_one: &str, adjective_two: &str, animal: &str) -> (name: String)
    ensures
        name@ == joined(adjective_one@, adjective_two@, animal@),
{
    proof {
        reveal_strlit("-");
    }
    let mut name = String::from_str(adjective_one);
    name.append("-");
    name.append(adjective_two);
    name.append("-");
    name.append(animal);
    assert("-"@ =~= seq!['-']);
    name
}

impl<'a> GoofyAnimals<'a> {
    /// Draws the indices of a name from `rng`. A pair of adjective indices is
    /// drawn, first and second, up to `attempts` times, until the two differ;
    /// then the animal's index is drawn. Where every pair drawn was a
    /// collision, no animal is drawn and the result is `None`.
    pub fn draw_indices<R: IndexSource>(&self, rng: &mut R, attempts: usize) -> (result: Option<
        Draw,
    >)
        requires
            self@.animals.len() > 0,
            self@.adjectives.len() > 0,
        ensures
            self@.draws(*old(rng), attempts, result, *final(rng)),
            result matches Some(draw) ==> self@.admits(draw),
            attempts == 0 || self@.adjectives.len() == 1 ==> result is None,
            attempts == 0 ==> *final(rng) == *old(rng),
    {
        let total_adjectives: usize = self.get_adjectives().len();
        let total_animals: usize = self.get_animals().len();
        let ghost first = *rng;
        let mut remaining: usize = attempts;
        while remaining > 0
            invariant
                total_adjectives == self@.adjectives.len(),
                total_animals == self@.animals.len(),
                total_adjectives > 0,
                total_animals > 0,
                remaining <= attempts,
                first == *old(rng),
                self@.collides(first, (attempts - remaining) as nat, *rng),
            decreases remaining,
        {
            let ghost before = *rng;
            let one: usize = rng.next_index(total_adjectives);
            let ghost second = *rng;
            let two: usize = rng.next_index(total_adjectives);
            let ghost third = *rng;
            if one != two {
                let animal: usize = rng.next_index(total_animals);
                let draw = Draw { adjective_one: one, adjective_two: two, animal };
                proof {
                    let ghost last = *rng;
                    assert(self@.hands_out_pair(
                        before,
                        draw.adjective_one,
                        second,
                        draw.adjective_two,
                        third,
                    ));
                    assert(third.yields(self@.animals.len() as usize, draw.animal, &last));
                    assert(self@.hands_out(before, draw, last));
                    assert(self@.collides(first, (attempts - remaining) as nat, before));
                }
                return Some(draw);
            }
            proof {
                assert(self@.hands_out_pair(before, one, second, one, *rng));
            }
            remaining = remaining - 1;
        }
        None
    }

    /// Draws a name and returns its three words: first adjective, second
    /// adjective, animal. Gives up with `None` after `MAX_ATTEMPTS` pairs of
    /// adjective indices that collided.
    pub fn generate_name_parts<R: IndexSource>(&self, rng: &mut R) -> (result: Option<
        (&'a str, &'a str, &'a str),
    >)
        requires
            self@.animals.len() > 0,
            self@.adjectives.len() > 0,
        ensures
            match result {
                Some(parts) => exists|draw: Draw|
                    {
                        &&& #[trigger] self@.draws(
                            *old(rng),
                            MAX_ATTEMPTS,
                            Some(draw),
                            *final(rng),
                        )
                        &&& self@.name_parts(draw) == (parts.0@, parts.1@, parts.2@)
                    },
                None => self@.draws(*old(rng), MAX_ATTEMPTS, None, *final(rng)),
            },
            result matches Some(parts) ==> {
                &&& self@.adjectives.contains(parts.0@)
                &&& self@.adjectives.contains(parts.1@)
                &&& self@.animals.contains(parts.2@)
                &&& self@.adjectives.no_duplicates() ==> parts.0@ != parts.1@
            },
            self@.adjectives.len() == 1 ==> result is None,
    {
        match self.draw_indices(rng, MAX_ATTEMPTS) {
            Some(draw) => {
                proof {
                    lemma_parts_are_members(self@, draw);
                    if self@.adjectives.no_duplicates() {
                        lemma_adjectives_differ(self@, draw);
                    }
                }
                Some(self.name_parts_at(draw))
            },
            None => None,
        }
    }

    /// Draws a name and returns it as one string, `adjective-adjective-animal`.
    /// Gives up with `None` after `MAX_ATTEMPTS` pairs of adjective indices
    /// that collided.
    pub fn generate_name<R: IndexSource>(&self, rng: &mut R) -> (result: Option<String>)
        requires
            self@.animals.len() > 0,
            self@.adjectives.len() > 0,
        ensures
            match result {
                Some(name) => exists|draw: Draw|
                    {
                        &&& #[trigger] self@.draws(
                            *old(rng),
                            MAX_ATTEMPTS,
                            Some(draw),
                            *final(rng),
                        )
                        &&& self@.name(draw) == name@
                    },
                None => self@.draws(*old(rng), MAX_ATTEMPTS, None, *final(rng)),
            },
            self@.adjectives.len() == 1 ==> result is None,
    {
        match self.draw_indices(rng, MAX_ATTEMPTS) {
            Some(draw) => Some(self.name_at(draw)),
            None => None,
        }
    }

    /// The words at the indices of `draw`.
    pub fn name_parts_at(&self, draw: Draw) -> (parts: (&'a str, &'a str, &'a str))
        requires
            self@.covers(draw),
        ensures
            (parts.0@, parts.1@, parts.2@) == self@.name_parts(draw),
    {
        let adjectives = self.get_adjectives();
        let animals = self.get_animals();
        (adjectives[draw.adjective_one], adjectives[draw.adjective_two], animals[draw.animal])
    }

    /// The name at the indices of `draw`.
    pub fn name_at(&self, draw: Draw) -> (name: String)
        requires
            self@.covers(draw),
        ensures
            name@ == self@.name(draw),
    {
        let parts = self.name_parts_at(draw);
        join_name(parts.0, parts.1, parts.2)
    }
}

/// Every word of a name is an entry of the list it was drawn from.
pub proof fn lemma_parts_are_members(lists: WordLists, draw: Draw)
    requires
        lists.covers(draw),
    ensures
        lists.adjectives.contains(lists.name_parts(draw).0),
        lists.adjectives.contains(lists.name_parts(draw).1),
        lists.animals.contains(lists.name_parts(draw).2),
{
}

/// Where no adjective stands twice in its list, the two adjectives of a name
/// are different words.
pub proof fn lemma_adjectives_differ(lists: WordLists, draw: Draw)
    requires
        lists.admits(draw),
        lists.adjectives.no_duplicates(),
    ensures
        lists.name_parts(draw).0 != lists.name_parts(draw).1,
{
}

/// The name of a draw is the three words of that draw with one hyphen
/// between each two: nothing before, between or after them besides.
pub proof fn lemma_name_joins_parts(lists: WordLists, draw: Draw)
    ensures
        lists.name(draw) == lists.name_parts(draw).0 + seq!['-'] + lists.name_parts(draw).1
            + seq!['-'] + lists.name_parts(draw).2,
        lists.name(draw).len() == lists.name_parts(draw).0.len() + lists.name_parts(draw).1.len()
            + lists.name_parts(draw).2.len() + 2,
{
}

/// Words and name depend on the lists' contents and the indices drawn, and
/// on nothing else: two stores that hold the same words give the same words
/// and the same name for the same draw.
pub proof fn lemma_same_draw_same_name(first: GoofyAnimals, second: GoofyAnimals, draw: Draw)
    requires
        first@.animals == second@.animals,
        first@.adjectives == second@.adjectives,
    ensures
        first@.name_parts(draw) == second@.name_parts(draw),
        first@.name(draw) == second@.name(draw),
{
}

/// A kind of source is determined where the source's state and the bound
/// settle both the index that comes and the state afterwards.
pub open spec fn determined<R: IndexSource>() -> bool {
    forall|source: R, bound: usize, index: usize, after: R, other_index: usize, other_after: R|
        #[trigger] source.yields(bound, index, &after) && #[trigger] source.yields(
            bound,
            other_index,
            &other_after,
        ) ==> index == other_index && after == other_after
}

/// With a determined source, a given number of collisions in a row leaves
/// the source in one state only.
pub proof fn lemma_collisions_are_settled<R: IndexSource>(
    lists: WordLists,
    first: R,
    count: nat,
    last: R,
    other_last: R,
)
    requires
        determined::<R>(),
        lists.collides(first, count, last),
        lists.collides(first, count, other_last),
    ensures
        last == other_last,
    decreases count,
{
    if count > 0 {
        let (before, index, between) = choose|before: R, index: usize, between: R|
            lists.collides(first, (count - 1) as nat, before) && #[trigger] lists.hands_out_pair(
                before,
                index,
                between,
                index,
                last,
            );
        let (other_before, other_index, other_between) = choose|
            before: R,
            index: usize,
            between: R,
        |
            lists.collides(first, (count - 1) as nat, before) && #[trigger] lists.hands_out_pair(
                before,
                index,
                between,
                index,
                other_last,
            );
        lemma_collisions_are_settled(lists, first, (count - 1) as nat, before, other_before);
        assert(before.yields(lists.adjectives.len() as usize, index, &between));
        assert(other_before.yields(lists.adjectives.len() as usize, other_index, &other_between));
        assert(between == other_between);
        assert(between.yields(lists.adjectives.len() as usize, index, &last));
        assert(other_between.yields(lists.adjectives.len() as usize, other_index, &other_last));
    }
}

/// With a determined source, a pair that differs does not come where a
/// collision comes: a source that hands out a draw after `failed` collisions
/// cannot collide more than `failed` times in a row.
pub proof fn lemma_draw_ends_collisions<R: IndexSource>(
    lists: WordLists,
    first: R,
    failed: nat,
    before: R,
    draw: Draw,
    last: R,
    count: nat,
    end: R,
)
    requires
        determined::<R>(),
        lists.collides(first, failed, before),
        lists.hands_out(before, draw, last),
        draw.adjective_one != draw.adjective_two,
        lists.collides(first, count, end),
    ensures
        count <= failed,
    decreases count,
{
    if count > failed {
        let (earlier, index, between) = choose|earlier: R, index: usize, between: R|
            lists.collides(first, (count - 1) as nat, earlier) && #[trigger] lists.hands_out_pair(
                earlier,
                index,
                between,
                index,
                end,
            );
        if count == failed + 1 {
            lemma_collisions_are_settled(lists, first, failed, before, earlier);
            let (second, third) = choose|second: R, third: R|
                #[trigger] lists.hands_out_pair(
                    before,
                    draw.adjective_one,
                    second,
                    draw.adjective_two,
                    third,
                ) && third.yields(lists.animals.len() as usize, draw.animal, &last);
            assert(before.yields(lists.adjectives.len() as usize, draw.adjective_one, &second));
            assert(earlier.yields(lists.adjectives.len() as usize, index, &between));
            assert(second == between);
            assert(second.yields(lists.adjectives.len() as usize, draw.adjective_two, &third));
            assert(between.yields(lists.adjectives.len() as usize, index, &end));
        } else {
            lemma_draw_ends_collisions(
                lists,
                first,
                failed,
                before,
                draw,
                last,
                (count - 1) as nat,
                earlier,
            );
        }
    }
}

/// With a determined source, the draw that comes after a given number of
/// collisions, and the state it leaves the source in, are settled.
pub proof fn lemma_draw_is_settled<R: IndexSource>(
    lists: WordLists,
    before: R,
    draw: Draw,
    last: R,
    other_draw: Draw,
    other_last: R,
)
    requires
        determined::<R>(),
        lists.hands_out(before, draw, last),
        lists.hands_out(before, other_draw, other_last),
    ensures
        draw == other_draw,
        last == other_last,
{
    let (second, third) = choose|second: R, third: R|
        #[trigger] lists.hands_out_pair(
            before,
            draw.adjective_one,
            second,
            draw.adjective_two,
            third,
        ) && third.yields(lists.animals.len() as usize, draw.animal, &last);
    let (other_second, other_third) = choose|second: R, third: R|
        #[trigger] lists.hands_out_pair(
            before,
            other_draw.adjective_one,
            second,
            other_draw.adjective_two,
            third,
        ) && third.yields(lists.animals.len() as usize, other_draw.animal, &other_last);
    assert(before.yields(lists.adjectives.len() as usize, draw.adjective_one, &second));
    assert(before.yields(lists.adjectives.len() as usize, other_draw.adjective_one, &other_second));
    assert(second == other_second);
    assert(second.yields(lists.adjectives.len() as usize, draw.adjective_two, &third));
    assert(other_second.yields(
        lists.adjectives.len() as usize,
        other_draw.adjective_two,
        &other_third,
    ));
    assert(third == other_third);
}

/// Drawing adds no chance of its own: with a determined source that stands
/// in a given state, the same lists and the same number of attempts give the
/// same result and leave the source in the same state, every time.
pub proof fn lemma_same_source_same_draw<R: IndexSource>(
    lists: WordLists,
    first: R,
    attempts: usize,
    result: Option<Draw>,
    last: R,
    other_result: Option<Draw>,
    other_last: R,
)
    requires
        determined::<R>(),
        lists.draws(first, attempts, result, last),
        lists.draws(first, attempts, other_result, other_last),
    ensures
        result == other_result,
        last == other_last,
{
    match (result, other_result) {
        (None, None) => {
            lemma_collisions_are_settled(lists, first, attempts as nat, last, other_last);
        },
        (Some(draw), None) => {
            let (failed, before) = choose|failed: nat, before: R|
                failed < attempts && #[trigger] lists.collides(first, failed, before)
                    && lists.hands_out(before, draw, last);
            lemma_draw_ends_collisions(
                lists,
                first,
                failed,
                before,
                draw,
                last,
                attempts as nat,
                other_last,
            );
        },
        (None, Some(draw)) => {
            let (failed, before) = choose|failed: nat, before: R|
                failed < attempts && #[trigger] lists.collides(first, failed, before)
                    && lists.hands_out(before, draw, other_last);
            lemma_draw_ends_collisions(
                lists,
                first,
                failed,
                before,
                draw,
                other_last,
                attempts as nat,
                last,
            );
        },
        (Some(draw), Some(other_draw)) => {
            let (failed, before) = choose|failed: nat, before: R|
                failed < attempts && #[trigger] lists.collides(first, failed, before)
                    && lists.hands_out(before, draw, last);
            let (other_failed, other_before) = choose|failed: nat, before: R|
                failed < attempts && #[trigger] lists.collides(first, failed, before)
                    && lists.hands_out(before, other_draw, other_last);
            lemma_draw_ends_collisions(
                lists,
                first,
                failed,
                before,
                draw,
                last,
                other_failed,
                other_before,
            );
            lemma_draw_ends_collisions(
                lists,
                first,
                other_failed,
                other_before,
                other_draw,
                other_last,
                failed,
                before,
            );
            lemma_collisions_are_settled(lists, first, failed, before, other_before);
            lemma_draw_is_settled(lists, before, draw, last, other_draw, other_last);
        },
    }
}

} // verus!
