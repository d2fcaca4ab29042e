//! Names drawn at random, for commands that are registered in bulk.
//!
//! A name is the prefix `many_` followed by five to fifty-four lower-case letters.

use vstd::prelude::*;
use crate::text::push_char;

verus! {

/// A number drawn at random.
///
/// Trusted: the body is `rand::random::<u32>()`, which draws the next 32 bits from the
/// generator of the current thread. Nothing is claimed of the number.
#[verifier::external_body]
fn random_u32() -> u32 {
    rand::random::<u32>()
}

/// The prefix of every generated name.
pub open spec fn prefix() -> Seq<char> {
    seq!['m', 'a', 'n', 'y', '_']
}

/// The number of letters that follow the prefix, for the number `seed`.
pub open spec fn letter_count(seed: u32) -> nat {
    (seed % 50 + 5) as nat
}

/// The letter for the byte `seed`: `a` for 0, `b` for 1 and so on, starting over after
/// `z`.
pub open spec fn letter(seed: u8) -> char {
    (97 + seed % 26) as char
}

/// The lowest eight bits of `n`.
pub open spec fn low_byte(n: u32) -> u8 {
    (n % 256) as u8
}

/// The name whose letters are those of `seeds`.
pub open spec fn name_of(seeds: Seq<u8>) -> Seq<char> {
    prefix() + Seq::new(seeds.len(), |i: int| letter(seeds[i]))
}

/// Whether `name` has the form of a generated name.
pub open spec fn is_generated(name: Seq<char>) -> bool {
    &&& 10 <= name.len() < 60
    &&& name.take(5) == prefix()
    &&& forall|i: int| 5 <= i < name.len() ==> 'a' <= #[trigger] name[i] && name[i] <= 'z'
}

/// Every name made of five to fifty-four seeds has the form of a generated name.
pub proof fn lemma_name_of_is_generated(seeds: Seq<u8>)
    requires
        5 <= seeds.len() < 55,
    ensures
        is_generated(name_of(seeds)),
{
    let name = name_of(seeds);
    assert(name.take(5) == prefix());
    assert forall|i: int| 5 <= i < name.len() implies 'a' <= #[trigger] name[i] && name[i]
        <= 'z' by {
        assert(name[i] == letter(seeds[i - 5]));
    }
}

/// Computes [`letter_count`].
pub fn letter_count_of(seed: u32) -> (n: usize)
    ensures
        n == letter_count(seed),
        5 <= n < 55,
{
    (seed % 50 + 5) as usize
}

/// Computes [`letter`].
pub fn letter_of(seed: u8) -> (c: char)
    ensures
        c == letter(seed),
        'a' <= c && c <= 'z',
{
    let code: u8 = 97 + seed % 26;
    code as char
}

/// Computes [`low_byte`].
pub fn low_byte_of(n: u32) -> (b: u8)
    ensures
        b == low_byte(n),
{
    (n % 256) as u8
}

/// The name whose letters are those of `seeds`.
pub fn generated_name(seeds: &Vec<u8>) -> (name: String)
    ensures
        name@ == name_of(seeds@),
{
    let mut name = String::new();
    push_char(&mut name, 'm');
    push_char(&mut name, 'a');
    push_char(&mut name, 'n');
    push_char(&mut name, 'y');
    push_char(&mut name, '_');
    assert(name@ == prefix());
    let mut i: usize = 0;
    while i < seeds.len()
        invariant
            i <= seeds@.len(),
            name@ == name_of(seeds@.take(i as int)),
        decreases seeds@.len() - i,
    {
        push_char(&mut name, letter_of(seeds[i]));
        assert(name_of(seeds@.take(i + 1)) == name_of(seeds@.take(i as int)).push(
            letter(seeds@[i as int]),
        ));
        i += 1;
    }
    assert(seeds@.take(i as int) == seeds@);
    name
}

/// A name drawn at random: the prefix, then as many letters as a random number decides,
/// each decided by the lowest byte of a random number of its own, which is how the
/// generator draws a byte.
pub fn random_command_name() -> (name: String)
    ensures
        is_generated(name@),
{
    let count = letter_count_of(random_u32());
    let mut seeds: Vec<u8> = Vec::new();
    while seeds.len() < count
        invariant
            seeds@.len() <= count,
        decreases count - seeds@.len(),
    {
        seeds.push(low_byte_of(random_u32()));
    }
    proof {
        lemma_name_of_is_generated(seeds@);
    }
    generated_name(&seeds)
}

} // verus!
