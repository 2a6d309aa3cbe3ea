//! The password mixer: the core that combines base words and random
//! filler characters into one password string.

use vstd::prelude::*;
use crate::rng::{fresh_rng, rand_below, shuffle_vec};

verus! {

// ---------------------------------------------------------------------------
// Character classes
// ---------------------------------------------------------------------------

/// The ten decimal digits.
pub open spec fn digit_chars() -> Seq<char> {
    "0123456789"@
}

/// The eight special symbols.
pub open spec fn special_chars() -> Seq<char> {
    "!@#$%^&*"@
}

/// The lowercase letters.
pub open spec fn lowercase_chars() -> Seq<char> {
    "abcdefghijklmnopqrstuvwxyz"@
}

/// The uppercase letters.
pub open spec fn uppercase_chars() -> Seq<char> {
    "ABCDEFGHIJKLMNOPQRSTUVWXYZ"@
}

/// The 70-character superset: every character any tier may draw from.
pub open spec fn all_chars() -> Seq<char> {
    lowercase_chars() + uppercase_chars() + digit_chars() + special_chars()
}

pub open spec fn is_digit(c: char) -> bool {
    digit_chars().contains(c)
}

pub open spec fn is_special(c: char) -> bool {
    special_chars().contains(c)
}

pub open spec fn is_lowercase(c: char) -> bool {
    lowercase_chars().contains(c)
}

pub open spec fn in_superset(c: char) -> bool {
    all_chars().contains(c)
}

// ---------------------------------------------------------------------------
// Configuration
// ---------------------------------------------------------------------------

/// The complexity tier of a generated password.
#[derive(Debug, Clone, Copy, PartialEq, Eq, Structural)]
pub enum ComplexityLevel {
    /// Whole words joined by single random digits.
    Basic,
    /// Whole words joined by a random special symbol and a random digit.
    Medium,
    /// As Medium, with a final random shuffle of the characters.
    Hard,
    /// A fully random 64-character string; base words are ignored.
    Penguin,
}

/// The mixer's configuration: target length, complexity tier, and whether
/// base words are kept whole or broken into single characters.
pub struct PenguinMixer {
    pub length: usize,
    pub complexity: ComplexityLevel,
    pub use_whole_words: bool,
}

// ---------------------------------------------------------------------------
// The shape of a generated password, as spec predicates
// ---------------------------------------------------------------------------

/// `order` lists each index below `n` exactly once: a permutation of the
/// word positions.
pub open spec fn valid_order(order: Seq<usize>, n: nat) -> bool {
    &&& order.len() == n
    &&& forall|i: int| 0 <= i < order.len() ==> (#[trigger] order[i]) < n
    &&& order.no_duplicates()
}

/// The words picked out by `order`, in that order.
pub open spec fn selected(words: Seq<Seq<char>>, order: Seq<usize>) -> Seq<Seq<char>> {
    order.map_values(|j: usize| words[j as int])
}

/// The words picked out by `order`, concatenated in that order.
pub open spec fn concat_selected(words: Seq<Seq<char>>, order: Seq<usize>) -> Seq<char>
    decreases order.len(),
{
    if order.len() == 0 {
        Seq::empty()
    } else {
        concat_selected(words, order.drop_last()) + words[order.last() as int]
    }
}

/// One separator of the given tier: Basic uses a single digit, Medium and
/// Hard a special symbol followed by a digit.  Penguin has no separators.
pub open spec fn sep_ok(level: ComplexityLevel, s: Seq<char>) -> bool {
    match level {
        ComplexityLevel::Basic => s.len() == 1 && is_digit(s[0]),
        ComplexityLevel::Medium | ComplexityLevel::Hard => s.len() == 2 && is_special(s[0])
            && is_digit(s[1]),
        ComplexityLevel::Penguin => false,
    }
}

/// Each word followed by its separator, in order.
pub open spec fn interleaved(ws: Seq<Seq<char>>, seps: Seq<Seq<char>>) -> Seq<char>
    decreases ws.len(),
{
    if ws.len() == 0 || seps.len() == 0 {
        Seq::empty()
    } else {
        ws.first() + seps.first() + interleaved(ws.drop_first(), seps.drop_first())
    }
}

/// `out` is the first `k` words of the permutation `order`, each followed by
/// one separator of the tier; a word was appended only while the output was
/// still shorter than `target`, and the joining stopped only once the target
/// was reached or the words ran out.
pub open spec fn joined_words(
    level: ComplexityLevel,
    target: nat,
    words: Seq<Seq<char>>,
    order: Seq<usize>,
    k: int,
    seps: Seq<Seq<char>>,
    out: Seq<char>,
) -> bool {
    &&& valid_order(order, words.len())
    &&& 0 <= k <= order.len()
    &&& seps.len() == k
    &&& forall|i: int| 0 <= i < k ==> sep_ok(level, #[trigger] seps[i])
    &&& out == interleaved(selected(words, order.take(k)), seps)
    &&& forall|j: int|
        0 <= j < k ==> (#[trigger] interleaved(
            selected(words, order.take(j)),
            seps.take(j),
        )).len() < target
    &&& k == order.len() || out.len() >= target
}

/// `out` comes from joining whole words as `joined_words` says, for some
/// permutation, prefix length and separators.
pub open spec fn joined_password(
    level: ComplexityLevel,
    target: nat,
    words: Seq<Seq<char>>,
    out: Seq<char>,
) -> bool {
    exists|order: Seq<usize>, k: int, seps: Seq<Seq<char>>|
        #[trigger] joined_words(level, target, words, order, k, seps, out)
}

/// `out` is `pre` padded on the right with characters of the superset up to
/// `target`; a `pre` already long enough is left as it is.
pub open spec fn padded_to(target: nat, pre: Seq<char>, out: Seq<char>) -> bool {
    if pre.len() >= target {
        out == pre
    } else {
        &&& out.len() == target
        &&& out.take(pre.len() as int) == pre
        &&& forall|i: int| pre.len() <= i < target ==> in_superset(#[trigger] out[i])
    }
}

/// The whole-word strategy: words joined with separators, padded with random
/// superset characters if too short, then truncated to exactly `target`.
pub open spec fn whole_words_password(
    level: ComplexityLevel,
    target: nat,
    words: Seq<Seq<char>>,
    out: Seq<char>,
) -> bool {
    exists|joined: Seq<char>, full: Seq<char>|
        #![trigger padded_to(target, joined, full)]
        {
            &&& joined_password(level, target, words, joined)
            &&& padded_to(target, joined, full)
            &&& out == full.take(target as int)
        }
}

/// What the character-mixing strategy may put at position `pos`: the tier's
/// 4-position cycle draws a digit or special symbol at the fixed offsets and
/// a character of the combined word pool elsewhere, falling back to a random
/// lowercase letter when the pool is empty.
pub open spec fn mixed_char_ok(level: ComplexityLevel, pool: Seq<char>, pos: int, c: char) -> bool {
    match level {
        ComplexityLevel::Basic => if pos % 4 == 0 {
            is_digit(c)
        } else if pool.len() > 0 {
            pool.contains(c)
        } else {
            is_lowercase(c)
        },
        ComplexityLevel::Medium | ComplexityLevel::Hard => if pos % 4 == 0 {
            is_special(c)
        } else if pos % 4 == 1 {
            is_digit(c)
        } else if pool.len() > 0 {
            pool.contains(c)
        } else {
            is_lowercase(c)
        },
        ComplexityLevel::Penguin => false,
    }
}

/// The character-mixing strategy: exactly `target` characters, each drawn as
/// the 4-position cycle allows over the pool of all words concatenated in
/// some shuffled order.
pub open spec fn char_mix_password(
    level: ComplexityLevel,
    target: nat,
    words: Seq<Seq<char>>,
    out: Seq<char>,
) -> bool {
    exists|order: Seq<usize>|
        #![trigger concat_selected(words, order)]
        {
            &&& valid_order(order, words.len())
            &&& out.len() == target
            &&& forall|i: int|
                0 <= i < out.len() ==> mixed_char_ok(
                    level,
                    concat_selected(words, order),
                    i,
                    #[trigger] out[i],
                )
        }
}

/// The result of the strategy the configuration selects, before the Hard
/// tier's final shuffle.
pub open spec fn unshuffled_password(
    config: PenguinMixer,
    words: Seq<Seq<char>>,
    out: Seq<char>,
) -> bool {
    if config.use_whole_words {
        whole_words_password(config.complexity, config.length as nat, words, out)
    } else {
        char_mix_password(config.complexity, config.length as nat, words, out)
    }
}

/// A non-Penguin password: the selected strategy's result, to which the Hard
/// tier applies one final shuffle — a rearrangement that keeps the character
/// multiset — while the other tiers return it unchanged.
pub open spec fn regular_password(
    config: PenguinMixer,
    words: Seq<Seq<char>>,
    out: Seq<char>,
) -> bool {
    exists|pre: Seq<char>|
        #![trigger unshuffled_password(config, words, pre)]
        {
            &&& unshuffled_password(config, words, pre)
            &&& if config.complexity is Hard {
                out.to_multiset() == pre.to_multiset() && out.len() == pre.len()
            } else {
                out == pre
            }
        }
}

/// Everything `mix_password` promises of its result: empty input words give
/// the empty string; otherwise the Penguin tier gives 64 superset characters
/// and every other tier gives `regular_password` at exactly the configured
/// length.
pub open spec fn password_ok(config: PenguinMixer, words: Seq<Seq<char>>, out: Seq<char>) -> bool {
    if words.len() == 0 {
        out == Seq::<char>::empty()
    } else if config.complexity is Penguin {
        out.len() == 64 && forall|i: int| 0 <= i < out.len() ==> in_superset(#[trigger] out[i])
    } else {
        regular_password(config, words, out) && out.len() == config.length
    }
}

// ---------------------------------------------------------------------------
// Laws
// ---------------------------------------------------------------------------

/// The length of every generated password: empty input words give the empty
/// string whatever the tier, the Penguin tier always 64 characters, and
/// every other tier exactly the configured length.
pub proof fn lemma_password_length(config: PenguinMixer, words: Seq<Seq<char>>, out: Seq<char>)
    requires
        password_ok(config, words, out),
    ensures
        words.len() == 0 ==> out.len() == 0,
        words.len() > 0 && config.complexity is Penguin ==> out.len() == 64,
        words.len() > 0 && !(config.complexity is Penguin) ==> out.len() == config.length,
{
}

/// The same configuration with the Medium tier.
pub open spec fn with_medium(config: PenguinMixer) -> PenguinMixer {
    PenguinMixer {
        length: config.length,
        complexity: ComplexityLevel::Medium,
        use_whole_words: config.use_whole_words,
    }
}

/// The Hard tier only shuffles: a Hard password's characters form the same
/// multiset as those of a password that the Medium rules — the same
/// separators and the same 4-position cycle — produce for the same
/// configuration.
pub proof fn lemma_hard_is_shuffled_medium(
    config: PenguinMixer,
    words: Seq<Seq<char>>,
    out: Seq<char>,
)
    requires
        config.complexity is Hard,
        regular_password(config, words, out),
    ensures
        exists|pre: Seq<char>|
            #![trigger regular_password(with_medium(config), words, pre)]
            regular_password(with_medium(config), words, pre) && out.to_multiset()
                == pre.to_multiset(),
{
    let target = config.length as nat;
    assert(config.complexity == ComplexityLevel::Hard);
    let pre = choose|pre: Seq<char>|
        #![trigger unshuffled_password(config, words, pre)]
        {
            &&& unshuffled_password(config, words, pre)
            &&& out.to_multiset() == pre.to_multiset() && out.len() == pre.len()
        };
    let mcfg = with_medium(config);
    if config.use_whole_words {
        let (joined, full) = choose|joined: Seq<char>, full: Seq<char>|
            #![trigger padded_to(target, joined, full)]
            {
                &&& joined_password(ComplexityLevel::Hard, target, words, joined)
                &&& padded_to(target, joined, full)
                &&& pre == full.take(target as int)
            };
        let (order, k, seps) = choose|order: Seq<usize>, k: int, seps: Seq<Seq<char>>|
            #[trigger] joined_words(ComplexityLevel::Hard, target, words, order, k, seps, joined);
        assert forall|i: int| 0 <= i < k implies sep_ok(
            ComplexityLevel::Medium,
            #[trigger] seps[i],
        ) by {
            assert(sep_ok(ComplexityLevel::Hard, seps[i]));
        }
        assert(joined_words(ComplexityLevel::Medium, target, words, order, k, seps, joined));
        assert(joined_password(ComplexityLevel::Medium, target, words, joined));
        assert(whole_words_password(ComplexityLevel::Medium, target, words, pre));
        assert(unshuffled_password(mcfg, words, pre));
    } else {
        let order = choose|order: Seq<usize>|
            #![trigger concat_selected(words, order)]
            {
                &&& valid_order(order, words.len())
                &&& pre.len() == target
                &&& forall|i: int|
                    0 <= i < pre.len() ==> mixed_char_ok(
                        ComplexityLevel::Hard,
                        concat_selected(words, order),
                        i,
                        #[trigger] pre[i],
                    )
            };
        assert forall|i: int| 0 <= i < pre.len() implies mixed_char_ok(
            ComplexityLevel::Medium,
            concat_selected(words, order),
            i,
            #[trigger] pre[i],
        ) by {
            assert(mixed_char_ok(ComplexityLevel::Hard, concat_selected(words, order), i, pre[i]));
        }
        let pool = concat_selected(words, order);
        assert(forall|i: int|
            0 <= i < pre.len() ==> mixed_char_ok(ComplexityLevel::Medium, pool, i, #[trigger] pre[i]));
        assert(char_mix_password(ComplexityLevel::Medium, target, words, pre));
        assert(unshuffled_password(mcfg, words, pre));
    }
    assert(regular_password(mcfg, words, pre));
}

// ---------------------------------------------------------------------------
// Random character draws (verified against the trusted `rng` wrappers)
// ---------------------------------------------------------------------------

fn random_digit(rng: &mut rand::rngs::ThreadRng) -> (c: char)
    ensures
        is_digit(c),
{
    let s = "0123456789";
    proof {
        reveal_strlit("0123456789");
    }
    let i: usize = rand_below(rng, 10);
    let c = s.get_char(i);
    proof {
        assert(digit_chars()[i as int] == c);
    }
    c
}

fn random_special(rng: &mut rand::rngs::ThreadRng) -> (c: char)
    ensures
        is_special(c),
{
    let s = "!@#$%^&*";
    proof {
        reveal_strlit("!@#$%^&*");
    }
    let i: usize = rand_below(rng, 8);
    let c = s.get_char(i);
    proof {
        assert(special_chars()[i as int] == c);
    }
    c
}

fn random_lowercase(rng: &mut rand::rngs::ThreadRng) -> (c: char)
    ensures
        is_lowercase(c),
{
    let s = "abcdefghijklmnopqrstuvwxyz";
    proof {
        reveal_strlit("abcdefghijklmnopqrstuvwxyz");
    }
    let i: usize = rand_below(rng, 26);
    let c = s.get_char(i);
    proof {
        assert(lowercase_chars()[i as int] == c);
    }
    c
}

fn random_superset_char(rng: &mut rand::rngs::ThreadRng) -> (c: char)
    ensures
        in_superset(c),
{
    let s = "abcdefghijklmnopqrstuvwxyzABCDEFGHIJKLMNOPQRSTUVWXYZ0123456789!@#$%^&*";
    proof {
        reveal_strlit("abcdefghijklmnopqrstuvwxyzABCDEFGHIJKLMNOPQRSTUVWXYZ0123456789!@#$%^&*");
        reveal_strlit("abcdefghijklmnopqrstuvwxyz");
        reveal_strlit("ABCDEFGHIJKLMNOPQRSTUVWXYZ");
        reveal_strlit("0123456789");
        reveal_strlit("!@#$%^&*");
        assert(s@ =~= all_chars());
    }
    let i: usize = rand_below(rng, 70);
    let c = s.get_char(i);
    proof {
        assert(all_chars()[i as int] == c);
    }
    c
}

fn random_pool_char(rng: &mut rand::rngs::ThreadRng, pool: &Vec<char>) -> (c: char)
    requires
        pool@.len() > 0,
    ensures
        pool@.contains(c),
{
    let i: usize = rand_below(rng, pool.len());
    let c = pool[i];
    proof {
        assert(pool@[i as int] == c);
    }
    c
}

// ---------------------------------------------------------------------------
// Building blocks
// ---------------------------------------------------------------------------

/// Appending one word and one separator to an interleaving extends it on the
/// right.
proof fn lemma_interleaved_push(ws: Seq<Seq<char>>, seps: Seq<Seq<char>>, w: Seq<char>, s: Seq<char>)
    requires
        ws.len() == seps.len(),
    ensures
        interleaved(ws.push(w), seps.push(s)) == interleaved(ws, seps) + w + s,
    decreases ws.len(),
{
    if ws.len() == 0 {
        assert(ws.push(w).drop_first() =~= ws);
        assert(seps.push(s).drop_first() =~= seps);
        assert(interleaved(ws.push(w), seps.push(s)) =~= interleaved(ws, seps) + w + s);
    } else {
        lemma_interleaved_push(ws.drop_first(), seps.drop_first(), w, s);
        assert(ws.push(w).drop_first() =~= ws.drop_first().push(w));
        assert(seps.push(s).drop_first() =~= seps.drop_first().push(s));
        assert(interleaved(ws.push(w), seps.push(s)) =~= interleaved(ws, seps) + w + s);
    }
}

/// Appends the characters of `w` to `out`.
fn push_word(out: &mut Vec<char>, w: &str)
    ensures
        final(out)@ == old(out)@ + w@,
{
    let n: usize = w.unicode_len();
    let mut i: usize = 0;
    while i < n
        invariant
            n == w@.len(),
            i <= n,
            out@ == old(out)@ + w@.take(i as int),
        decreases n - i,
    {
        let c = w.get_char(i);
        out.push(c);
        proof {
            assert(old(out)@ + w@.take(i as int) + seq![c] =~= old(out)@ + w@.take(i as int + 1));
        }
        i += 1;
    }
    proof {
        assert(w@.take(n as int) =~= w@);
    }
}

/// Appends one separator of the tier and returns (as ghost) which characters
/// it appended.
fn push_separator(
    level: ComplexityLevel,
    rng: &mut rand::rngs::ThreadRng,
    out: &mut Vec<char>,
) -> (sep: Ghost<Seq<char>>)
    requires
        !(level is Penguin),
    ensures
        sep_ok(level, sep@),
        final(out)@ == old(out)@ + sep@,
{
    match level {
        ComplexityLevel::Basic => {
            let d = random_digit(rng);
            out.push(d);
            proof {
                assert(old(out)@ + seq![d] =~= out@);
            }
            let ghost sep_chars: Seq<char> = seq![d];
            Ghost(sep_chars)
        },
        ComplexityLevel::Medium | ComplexityLevel::Hard => {
            let sp = random_special(rng);
            let d = random_digit(rng);
            out.push(sp);
            out.push(d);
            proof {
                assert(old(out)@ + seq![sp, d] =~= out@);
            }
            let ghost sep_chars: Seq<char> = seq![sp, d];
            Ghost(sep_chars)
        },
        ComplexityLevel::Penguin => vstd::pervasive::unreached(),
    }
}

/// A random permutation of the word positions `0..n`.
fn make_order(n: usize, rng: &mut rand::rngs::ThreadRng) -> (r: Vec<usize>)
    ensures
        valid_order(r@, n as nat),
{
    let mut idxs: Vec<usize> = Vec::new();
    let mut i: usize = 0;
    while i < n
        invariant
            i <= n,
            idxs@.len() == i,
            forall|j: int| 0 <= j < i ==> (#[trigger] idxs@[j]) == j,
        decreases n - i,
    {
        idxs.push(i);
        i += 1;
    }
    proof {
        assert(idxs@.no_duplicates());
    }
    let ghost before = idxs@;
    shuffle_vec(rng, &mut idxs);
    proof {
        assert forall|k: int| 0 <= k < idxs@.len() implies (#[trigger] idxs@[k]) < n by {
            assert(before.contains(idxs@[k]));
            let j = choose|j: int| 0 <= j < before.len() && before[j] == idxs@[k];
            assert(before[j] == j);
        }
    }
    idxs
}

/// The words of `base_input`, concatenated in the order `order` gives.
fn concat_in_order(base_input: &Vec<&str>, order: &Vec<usize>) -> (r: Vec<char>)
    requires
        valid_order(order@, base_input@.len() as nat),
    ensures
        r@ == concat_selected(base_input.deep_view(), order@),
{
    let ghost words = base_input.deep_view();
    let mut pool: Vec<char> = Vec::new();
    let mut i: usize = 0;
    while i < order.len()
        invariant
            i <= order@.len(),
            valid_order(order@, base_input@.len() as nat),
            words == base_input.deep_view(),
            pool@ == concat_selected(words, order@.take(i as int)),
        decreases order@.len() - i,
    {
        let j: usize = order[i];
        let w = base_input[j];
        push_word(&mut pool, w);
        proof {
            assert(order@.take(i as int + 1).drop_last() =~= order@.take(i as int));
            assert(words[j as int] == w@);
        }
        i += 1;
    }
    proof {
        assert(order@.take(order@.len() as int) =~= order@);
    }
    pool
}

/// Pads `out` on the right with random superset characters up to `target`;
/// an `out` already long enough is left unchanged.
fn pad_random(out: &mut Vec<char>, target: usize, rng: &mut rand::rngs::ThreadRng)
    ensures
        padded_to(target as nat, old(out)@, final(out)@),
        final(out)@.len() >= target,
{
    while out.len() < target
        invariant
            old(out)@.len() >= target ==> out@ == old(out)@,
            old(out)@.len() < target ==> {
                &&& old(out)@.len() <= out@.len() <= target
                &&& out@.take(old(out)@.len() as int) == old(out)@
                &&& forall|i: int|
                    old(out)@.len() <= i < out@.len() ==> in_superset(#[trigger] out@[i])
            },
        decreases target - out.len(),
    {
        let c = random_superset_char(rng);
        proof {
            assert((out@ + seq![c]).take(old(out)@.len() as int) =~= out@.take(
                old(out)@.len() as int,
            ));
        }
        out.push(c);
    }
}

/// Relies on `String` implementing `FromIterator<char>`: collecting
/// characters yields the string of exactly those characters in order.
#[verifier::external_body]
fn chars_to_string(chars: &Vec<char>) -> (r: String)
    ensures
        r@ == chars@,
{
    chars.iter().collect()
}

// ---------------------------------------------------------------------------
// The mixer
// ---------------------------------------------------------------------------

impl Default for PenguinMixer {
    /// The default mixer: whole words, Medium complexity, length 12.
    fn default() -> (r: Self)
        ensures
            r == (PenguinMixer {
                length: 12,
                complexity: ComplexityLevel::Medium,
                use_whole_words: true,
            }),
    {
        Self { length: 12, complexity: ComplexityLevel::Medium, use_whole_words: true }
    }
}

impl PenguinMixer {
    /// Creates a mixer with the given settings.
    pub fn new(complexity: ComplexityLevel, use_whole_words: bool, length: usize) -> (r: Self)
        ensures
            r == (PenguinMixer { length, complexity, use_whole_words }),
    {
        Self { complexity, use_whole_words, length }
    }

    /// Generates one password from the given base words.  An empty word list
    /// yields the empty string, whatever the configuration.
    pub fn mix_password(&self, base_input: &Vec<&str>) -> (r: String)
        ensures
            password_ok(*self, base_input.deep_view(), r@),
    {
        if base_input.len() == 0 {
            return String::new();
        }

        match self.complexity {
            ComplexityLevel::Penguin => Self::generate_penguin_password(),
            _ => self.generate_regular_password(base_input),
        }
    }

    /// The Penguin tier: 64 characters drawn independently from the whole
    /// 70-character superset, ignoring the base words.
    fn generate_penguin_password() -> (r: String)
        ensures
            r@.len() == 64,
            forall|i: int| 0 <= i < r@.len() ==> in_superset(#[trigger] r@[i]),
    {
        let mut rng = fresh_rng();
        let mut password: Vec<char> = Vec::new();
        let mut i: usize = 0;
        while i < 64
            invariant
                i <= 64,
                password@.len() == i,
                forall|j: int| 0 <= j < password@.len() ==> in_superset(#[trigger] password@[j]),
            decreases 64 - i,
        {
            let c = random_superset_char(&mut rng);
            password.push(c);
            i += 1;
        }
        chars_to_string(&password)
    }

    /// The whole-word and character-mixing tiers: builds the unshuffled
    /// password by the selected strategy, then gives the Hard tier its final
    /// shuffle.
    fn generate_regular_password(&self, base_input: &Vec<&str>) -> (r: String)
        requires
            !(self.complexity is Penguin),
            base_input@.len() > 0,
        ensures
            regular_password(*self, base_input.deep_view(), r@),
            r@.len() == self.length,
    {
        let ghost words = base_input.deep_view();
        let mut rng = fresh_rng();
        let order = make_order(base_input.len(), &mut rng);

        let mut password: Vec<char>;
        if self.use_whole_words {
            password = self.join_whole_words(base_input, &order, &mut rng);
            let ghost joined = password@;
            pad_random(&mut password, self.length, &mut rng);
            let ghost full = password@;
            password.truncate(self.length);
            proof {
                assert(password@ =~= full.take(self.length as int));
                assert(whole_words_password(self.complexity, self.length as nat, words, password@));
            }
        } else {
            let pool = concat_in_order(base_input, &order);
            password = self.build_mixed(&pool, &mut rng);
            proof {
                assert(char_mix_password(self.complexity, self.length as nat, words, password@));
            }
        }
        let ghost pre = password@;
        assert(unshuffled_password(*self, words, pre));
        assert(pre.len() == self.length);

        if matches!(self.complexity, ComplexityLevel::Hard) {
            shuffle_vec(&mut rng, &mut password);
        }
        proof {
            assert(regular_password(*self, words, password@));
        }
        chars_to_string(&password)
    }

    /// Appends words of `base_input`, in the order `order` gives, each
    /// followed by one separator, until the target length is reached or the
    /// words run out.
    fn join_whole_words(
        &self,
        base_input: &Vec<&str>,
        order: &Vec<usize>,
        rng: &mut rand::rngs::ThreadRng,
    ) -> (r: Vec<char>)
        requires
            !(self.complexity is Penguin),
            valid_order(order@, base_input@.len() as nat),
        ensures
            joined_password(self.complexity, self.length as nat, base_input.deep_view(), r@),
    {
        let ghost words = base_input.deep_view();
        let mut password: Vec<char> = Vec::new();
        let mut index: usize = 0;
        let ghost mut seps: Seq<Seq<char>> = Seq::empty();
        while password.len() < self.length && index < order.len()
            invariant
                !(self.complexity is Penguin),
                valid_order(order@, words.len()),
                words == base_input.deep_view(),
                index <= order@.len(),
                seps.len() == index,
                forall|i: int| 0 <= i < index ==> sep_ok(self.complexity, #[trigger] seps[i]),
                password@ == interleaved(selected(words, order@.take(index as int)), seps),
                forall|j: int|
                    0 <= j < index ==> (#[trigger] interleaved(
                        selected(words, order@.take(j)),
                        seps.take(j),
                    )).len() < self.length,
            decreases order@.len() - index,
        {
            let j: usize = order[index];
            let word = base_input[j];
            let ghost pw0 = password@;
            push_word(&mut password, word);
            let sep = push_separator(self.complexity, rng, &mut password);
            proof {
                let ws0 = selected(words, order@.take(index as int));
                let seps0 = seps;
                lemma_interleaved_push(ws0, seps0, word@, sep@);
                assert(order@.take(index as int + 1) =~= order@.take(index as int).push(j));
                assert(words[j as int] == word@);
                assert(selected(words, order@.take(index as int + 1)) =~= ws0.push(word@));
                seps = seps.push(sep@);
                assert(password@ == interleaved(
                    selected(words, order@.take(index as int + 1)),
                    seps,
                ));
                assert forall|j2: int|
                    0 <= j2 < index + 1 implies (#[trigger] interleaved(
                    selected(words, order@.take(j2)),
                    seps.take(j2),
                )).len() < self.length by {
                    if j2 < index {
                        assert(seps.take(j2) =~= seps0.take(j2));
                    } else {
                        assert(seps.take(j2) =~= seps0);
                        assert(interleaved(selected(words, order@.take(j2)), seps0) == pw0);
                    }
                }
            }
            index += 1;
        }
        proof {
            assert(joined_words(
                self.complexity,
                self.length as nat,
                words,
                order@,
                index as int,
                seps,
                password@,
            ));
        }
        password
    }

    /// Builds exactly `self.length` characters by the tier's 4-position
    /// cycle over the given pool.
    fn build_mixed(&self, pool: &Vec<char>, rng: &mut rand::rngs::ThreadRng) -> (r: Vec<char>)
        requires
            !(self.complexity is Penguin),
        ensures
            r@.len() == self.length,
            forall|i: int|
                0 <= i < r@.len() ==> mixed_char_ok(self.complexity, pool@, i, #[trigger] r@[i]),
    {
        let mut password: Vec<char> = Vec::new();
        while password.len() < self.length
            invariant
                !(self.complexity is Penguin),
                password@.len() <= self.length,
                forall|i: int|
                    0 <= i < password@.len() ==> mixed_char_ok(
                        self.complexity,
                        pool@,
                        i,
                        #[trigger] password@[i],
                    ),
            decreases self.length - password.len(),
        {
            let pos: usize = password.len();
            let c: char = match self.complexity {
                ComplexityLevel::Basic => {
                    if pos % 4 == 0 {
                        random_digit(rng)
                    } else if pool.len() > 0 {
                        random_pool_char(rng, pool)
                    } else {
                        random_lowercase(rng)
                    }
                },
                ComplexityLevel::Medium | ComplexityLevel::Hard => {
                    if pos % 4 == 0 {
                        random_special(rng)
                    } else if pos % 4 == 1 {
                        random_digit(rng)
                    } else if pool.len() > 0 {
                        random_pool_char(rng, pool)
                    } else {
                        random_lowercase(rng)
                    }
                },
                ComplexityLevel::Penguin => vstd::pervasive::unreached(),
            };
            proof {
                assert(mixed_char_ok(self.complexity, pool@, pos as int, c));
            }
            password.push(c);
        }
        password
    }
}

} // verus!
