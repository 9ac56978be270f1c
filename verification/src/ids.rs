//! Operation ids: ULIDs from a monotonic generator, each one after the one
//! before in the order of their text.
use vstd::prelude::*;
use ulid::Generator;
use rand::rngs::StdRng;
use rand::SeedableRng;

verus! {

#[verifier::external_type_specification]
#[verifier::external_body]
pub struct ExGenerator(Generator);

/// Whether the text `a` comes before `b`: at the first position where they
/// differ the character of `a` is the smaller, or `a` is a proper prefix of
/// `b`.
pub open spec fn id_less(a: Seq<char>, b: Seq<char>) -> bool
    decreases a.len(),
{
    if a.len() == 0 {
        b.len() > 0
    } else if b.len() == 0 {
        false
    } else if a[0] != b[0] {
        (a[0] as int) < (b[0] as int)
    } else {
        id_less(a.drop_first(), b.drop_first())
    }
}

/// No text comes before itself.
pub proof fn lemma_id_less_irreflexive(a: Seq<char>)
    ensures
        !id_less(a, a),
    decreases a.len(),
{
    if a.len() > 0 {
        lemma_id_less_irreflexive(a.drop_first());
    }
}

/// The order of texts is transitive.
pub proof fn lemma_id_less_transitive(a: Seq<char>, b: Seq<char>, c: Seq<char>)
    requires
        id_less(a, b),
        id_less(b, c),
    ensures
        id_less(a, c),
    decreases a.len(),
{
    if a.len() > 0 && b.len() > 0 && c.len() > 0 && a[0] == b[0] && b[0] == c[0] {
        lemma_id_less_transitive(a.drop_first(), b.drop_first(), c.drop_first());
    }
}

/// Whether `a` is `b` or comes before it.
pub open spec fn id_at_most(a: Seq<char>, b: Seq<char>) -> bool {
    a == b || id_less(a, b)
}

/// A source of operation ids, with the last id it issued and how many
/// requests for an id it has refused.
pub struct IdSource {
    generator: Generator,
    last: Ghost<Option<Seq<char>>>,
    refusals: Ghost<nat>,
}

/// `ulid::Generator::new`: a generator that has issued no id yet. Nothing
/// is claimed of it.
#[verifier::external_body]
fn new_generator() -> Generator {
    Generator::new()
}

impl IdSource {
    /// The last id issued, if any.
    pub closed spec fn last_issued(&self) -> Option<Seq<char>> {
        self.last@
    }

    /// How many requests for an id were refused.
    pub closed spec fn refusals(&self) -> nat {
        self.refusals@
    }

    /// A source that has issued no id yet.
    pub fn new() -> (ids: Self)
        ensures
            ids.last_issued() is None,
            ids.refusals() == 0,
    {
        IdSource { generator: new_generator(), last: Ghost(None), refusals: Ghost(0) }
    }

    /// `ulid::Generator::generate_with_source`, fed by a freshly seeded
    /// `StdRng`, written out by `Ulid::to_string`. The generator promises
    /// each ULID larger than the one before; `to_string` writes the 26
    /// characters of its Crockford base-32 digits, most significant first,
    /// from an alphabet in increasing character order, so a larger ULID has
    /// a later text. `None` when the generator reports that its counter
    /// would overflow within one millisecond; it then keeps its state, and
    /// the refusal is counted. Which
    /// id comes depends on the clock and on chance and is not claimed.
    #[verifier::external_body]
    pub(crate) fn next_id(&mut self) -> (id: Option<String>)
        ensures
            match id {
                Some(s) => {
                    &&& s@.len() == 26
                    &&& old(self).last_issued() matches Some(p) ==> id_less(p, s@)
                    &&& final(self).last_issued() == Some(s@)
                    &&& final(self).refusals() == old(self).refusals()
                },
                None => {
                    &&& final(self).last_issued() == old(self).last_issued()
                    &&& final(self).refusals() == old(self).refusals() + 1
                },
            },
    {
        match self.generator.generate_with_source(&mut StdRng::from_entropy()) {
            Ok(ulid) => Some(ulid.to_string()),
            Err(_) => None,
        }
    }
}

} // verus!
