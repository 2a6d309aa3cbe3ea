//! Penguin: a password generator that mixes user-supplied base words with
//! random digits, special symbols and letters, under four complexity tiers.

use vstd::prelude::*;

pub mod mixer;
mod rng;

verus! {

use crate::mixer::{ComplexityLevel, PenguinMixer, password_ok};

/// The configuration `generate_password` builds from its options: each
/// missing option falls back to Medium complexity, whole words, and length
/// 12 respectively.
pub open spec fn resolved_config(
    complexity: Option<ComplexityLevel>,
    use_whole_words: Option<bool>,
    length: Option<usize>,
) -> PenguinMixer {
    PenguinMixer {
        length: match length {
            Option::Some(l) => l,
            Option::None => 12,
        },
        complexity: match complexity {
            Option::Some(c) => c,
            Option::None => ComplexityLevel::Medium,
        },
        use_whole_words: match use_whole_words {
            Option::Some(w) => w,
            Option::None => true,
        },
    }
}

/// The generator: holds the base words one or more passwords are mixed from.
pub struct Penguin<'a> {
    base_input: Vec<&'a str>,
}

impl<'a> Penguin<'a> {
    /// The stored base words, character by character.
    pub closed spec fn words(self) -> Seq<Seq<char>> {
        self.base_input.deep_view()
    }

    /// Creates a generator over the given base words.
    pub fn new(base_input: Vec<&'a str>) -> (r: Self)
        ensures
            r.words() == base_input.deep_view(),
    {
        Self { base_input }
    }

    /// Generates `count` passwords, in generation order, each satisfying the
    /// mixer's contract for the resolved configuration.  When all three
    /// options are unset the default bundle applies; otherwise each unset
    /// option defaults independently — both resolutions give the same
    /// configuration, which `resolved_config` states.
    pub fn generate_password(
        self,
        count: usize,
        complexity: Option<ComplexityLevel>,
        use_whole_words: Option<bool>,
        length: Option<usize>,
    ) -> (r: Vec<String>)
        ensures
            r@.len() == count,
            forall|i: int|
                0 <= i < r@.len() ==> password_ok(
                    resolved_config(complexity, use_whole_words, length),
                    self.words(),
                    (#[trigger] r@[i])@,
                ),
    {
        let mixer = match (complexity, use_whole_words, length) {
            (None, None, None) => PenguinMixer::default(),
            (complexity, use_whole_words, length) => PenguinMixer::new(
                complexity.unwrap_or(ComplexityLevel::Medium),
                use_whole_words.unwrap_or(true),
                length.unwrap_or(12),
            ),
        };
        proof {
            assert(mixer == resolved_config(complexity, use_whole_words, length));
        }

        let mut collected: Vec<String> = Vec::with_capacity(count);
        let mut i: usize = 0;
        while i < count
            invariant
                i <= count,
                collected@.len() == i,
                mixer == resolved_config(complexity, use_whole_words, length),
                self.words() == self.base_input.deep_view(),
                forall|k: int|
                    0 <= k < collected@.len() ==> password_ok(
                        mixer,
                        self.words(),
                        (#[trigger] collected@[k])@,
                    ),
            decreases count - i,
        {
            collected.push(mixer.mix_password(&self.base_input));
            i += 1;
        }

        collected
    }
}

/// With all three options unset, the bundle default applies: Medium
/// complexity, whole words, length 12.
pub proof fn lemma_default_bundle()
    ensures
        resolved_config(None, None, None) == (PenguinMixer {
            length: 12,
            complexity: ComplexityLevel::Medium,
            use_whole_words: true,
        }),
{
}

/// With any option set, each unset option defaults independently: a length
/// alone leaves Medium complexity and whole words in place.
pub proof fn lemma_independent_defaults(length: usize)
    ensures
        resolved_config(None, None, Some(length)) == (PenguinMixer {
            length,
            complexity: ComplexityLevel::Medium,
            use_whole_words: true,
        }),
{
}

} // verus!
