//! Named constructors for the 52 suited cards, such as `S_2()` for the two of spades.

use vstd::prelude::*;

use crate::types::{Card, Number, Suit};

verus! {

#[allow(non_snake_case)]
pub fn C_2() -> (r: Card)
    ensures
        r == (Card::Suited { suit: Suit::Clubs, number: Number::Two }),
{
    Card::Suited { suit: Suit::Clubs, number: Number::Two }
}

#[allow(non_snake_case)]
pub fn C_3() -> (r: Card)
    ensures
        r == (Card::Suited { suit: Suit::Clubs, number: Number::Three }),
{
    Card::Suited { suit: Suit::Clubs, number: Number::Three }
}

#[allow(non_snake_case)]
pub fn C_4() -> (r: Card)
    ensures
        r == (Card::Suited { suit: Suit::Clubs, number: Number::Four }),
{
    Card::Suited { suit: Suit::Clubs, number: Number::Four }
}

#[allow(non_snake_case)]
pub fn C_5() -> (r: Card)
    ensures
        r == (Card::Suited { suit: Suit::Clubs, number: Number::Five }),
{
    Card::Suited { suit: Suit::Clubs, number: Number::Five }
}

#[allow(non_snake_case)]
pub fn C_6() -> (r: Card)
    ensures
        r == (Card::Suited { suit: Suit::Clubs, number: Number::Six }),
{
    Card::Suited { suit: Suit::Clubs, number: Number::Six }
}

#[allow(non_snake_case)]
pub fn C_7() -> (r: Card)
    ensures
        r == (Card::Suited { suit: Suit::Clubs, number: Number::Seven }),
{
    Card::Suited { suit: Suit::Clubs, number: Number::Seven }
}

#[allow(non_snake_case)]
pub fn C_8() -> (r: Card)
    ensures
        r == (Card::Suited { suit: Suit::Clubs, number: Number::Eight }),
{
    Card::Suited { suit: Suit::Clubs, number: Number::Eight }
}

#[allow(non_snake_case)]
pub fn C_9() -> (r: Card)
    ensures
        r == (Card::Suited { suit: Suit::Clubs, number: Number::Nine }),
{
    Card::Suited { suit: Suit::Clubs, number: Number::Nine }
}

#[allow(non_snake_case)]
pub fn C_10() -> (r: Card)
    ensures
        r == (Card::Suited { suit: Suit::Clubs, number: Number::Ten }),
{
    Card::Suited { suit: Suit::Clubs, number: Number::Ten }
}

#[allow(non_snake_case)]
pub fn C_J() -> (r: Card)
    ensures
        r == (Card::Suited { suit: Suit::Clubs, number: Number::Jack }),
{
    Card::Suited { suit: Suit::Clubs, number: Number::Jack }
}

#[allow(non_snake_case)]
pub fn C_Q() -> (r: Card)
    ensures
        r == (Card::Suited { suit: Suit::Clubs, number: Number::Queen }),
{
    Card::Suited { suit: Suit::Clubs, number: Number::Queen }
}

#[allow(non_snake_case)]
pub fn C_K() -> (r: Card)
    ensures
        r == (Card::Suited { suit: Suit::Clubs, number: Number::King }),
{
    Card::Suited { suit: Suit::Clubs, number: Number::King }
}

#[allow(non_snake_case)]
pub fn C_A() -> (r: Card)
    ensures
        r == (Card::Suited { suit: Suit::Clubs, number: Number::Ace }),
{
    Card::Suited { suit: Suit::Clubs, number: Number::Ace }
}

#[allow(non_snake_case)]
pub fn D_2() -> (r: Card)
    ensures
        r == (Card::Suited { suit: Suit::Diamonds, number: Number::Two }),
{
    Card::Suited { suit: Suit::Diamonds, number: Number::Two }
}

#[allow(non_snake_case)]
pub fn D_3() -> (r: Card)
    ensures
        r == (Card::Suited { suit: Suit::Diamonds, number: Number::Three }),
{
    Card::Suited { suit: Suit::Diamonds, number: Number::Three }
}

#[allow(non_snake_case)]
pub fn D_4() -> (r: Card)
    ensures
        r == (Card::Suited { suit: Suit::Diamonds, number: Number::Four }),
{
    Card::Suited { suit: Suit::Diamonds, number: Number::Four }
}

#[allow(non_snake_case)]
pub fn D_5() -> (r: Card)
    ensures
        r == (Card::Suited { suit: Suit::Diamonds, number: Number::Five }),
{
    Card::Suited { suit: Suit::Diamonds, number: Number::Five }
}

#[allow(non_snake_case)]
pub fn D_6() -> (r: Card)
    ensures
        r == (Card::Suited { suit: Suit::Diamonds, number: Number::Six }),
{
    Card::Suited { suit: Suit::Diamonds, number: Number::Six }
}

#[allow(non_snake_case)]
pub fn D_7() -> (r: Card)
    ensures
        r == (Card::Suited { suit: Suit::Diamonds, number: Number::Seven }),
{
    Card::Suited { suit: Suit::Diamonds, number: Number::Seven }
}

#[allow(non_snake_case)]
pub fn D_8() -> (r: Card)
    ensures
        r == (Card::Suited { suit: Suit::Diamonds, number: Number::Eight }),
{
    Card::Suited { suit: Suit::Diamonds, number: Number::Eight }
}

#[allow(non_snake_case)]
pub fn D_9() -> (r: Card)
    ensures
        r == (Card::Suited { suit: Suit::Diamonds, number: Number::Nine }),
{
    Card::Suited { suit: Suit::Diamonds, number: Number::Nine }
}

#[allow(non_snake_case)]
pub fn D_10() -> (r: Card)
    ensures
        r == (Card::Suited { suit: Suit::Diamonds, number: Number::Ten }),
{
    Card::Suited { suit: Suit::Diamonds, number: Number::Ten }
}

#[allow(non_snake_case)]
pub fn D_J() -> (r: Card)
    ensures
        r == (Card::Suited { suit: Suit::Diamonds, number: Number::Jack }),
{
    Card::Suited { suit: Suit::Diamonds, number: Number::Jack }
}

#[allow(non_snake_case)]
pub fn D_Q() -> (r: Card)
    ensures
        r == (Card::Suited { suit: Suit::Diamonds, number: Number::Queen }),
{
    Card::Suited { suit: Suit::Diamonds, number: Number::Queen }
}

#[allow(non_snake_case)]
pub fn D_K() -> (r: Card)
    ensures
        r == (Card::Suited { suit: Suit::Diamonds, number: Number::King }),
{
    Card::Suited { suit: Suit::Diamonds, number: Number::King }
}

#[allow(non_snake_case)]
pub fn D_A() -> (r: Card)
    ensures
        r == (Card::Suited { suit: Suit::Diamonds, number: Number::Ace }),
{
    Card::Suited { suit: Suit::Diamonds, number: Number::Ace }
}

#[allow(non_snake_case)]
pub fn H_2() -> (r: Card)
    ensures
        r == (Card::Suited { suit: Suit::Hearts, number: Number::Two }),
{
    Card::Suited { suit: Suit::Hearts, number: Number::Two }
}

#[allow(non_snake_case)]
pub fn H_3() -> (r: Card)
    ensures
        r == (Card::Suited { suit: Suit::Hearts, number: Number::Three }),
{
    Card::Suited { suit: Suit::Hearts, number: Number::Three }
}

#[allow(non_snake_case)]
pub fn H_4() -> (r: Card)
    ensures
        r == (Card::Suited { suit: Suit::Hearts, number: Number::Four }),
{
    Card::Suited { suit: Suit::Hearts, number: Number::Four }
}

#[allow(non_snake_case)]
pub fn H_5() -> (r: Card)
    ensures
        r == (Card::Suited { suit: Suit::Hearts, number: Number::Five }),
{
    Card::Suited { suit: Suit::Hearts, number: Number::Five }
}

#[allow(non_snake_case)]
pub fn H_6() -> (r: Card)
    ensures
        r == (Card::Suited { suit: Suit::Hearts, number: Number::Six }),
{
    Card::Suited { suit: Suit::Hearts, number: Number::Six }
}

#[allow(non_snake_case)]
pub fn H_7() -> (r: Card)
    ensures
        r == (Card::Suited { suit: Suit::Hearts, number: Number::Seven }),
{
    Card::Suited { suit: Suit::Hearts, number: Number::Seven }
}

#[allow(non_snake_case)]
pub fn H_8() -> (r: Card)
    ensures
        r == (Card::Suited { suit: Suit::Hearts, number: Number::Eight }),
{
    Card::Suited { suit: Suit::Hearts, number: Number::Eight }
}

#[allow(non_snake_case)]
pub fn H_9() -> (r: Card)
    ensures
        r == (Card::Suited { suit: Suit::Hearts, number: Number::Nine }),
{
    Card::Suited { suit: Suit::Hearts, number: Number::Nine }
}

#[allow(non_snake_case)]
pub fn H_10() -> (r: Card)
    ensures
        r == (Card::Suited { suit: Suit::Hearts, number: Number::Ten }),
{
    Card::Suited { suit: Suit::Hearts, number: Number::Ten }
}

#[allow(non_snake_case)]
pub fn H_J() -> (r: Card)
    ensures
        r == (Card::Suited { suit: Suit::Hearts, number: Number::Jack }),
{
    Card::Suited { suit: Suit::Hearts, number: Number::Jack }
}

#[allow(non_snake_case)]
pub fn H_Q() -> (r: Card)
    ensures
        r == (Card::Suited { suit: Suit::Hearts, number: Number::Queen }),
{
    Card::Suited { suit: Suit::Hearts, number: Number::Queen }
}

#[allow(non_snake_case)]
pub fn H_K() -> (r: Card)
    ensures
        r == (Card::Suited { suit: Suit::Hearts, number: Number::King }),
{
    Card::Suited { suit: Suit::Hearts, number: Number::King }
}

#[allow(non_snake_case)]
pub fn H_A() -> (r: Card)
    ensures
        r == (Card::Suited { suit: Suit::Hearts, number: Number::Ace }),
{
    Card::Suited { suit: Suit::Hearts, number: Number::Ace }
}

#[allow(non_snake_case)]
pub fn S_2() -> (r: Card)
    ensures
        r == (Card::Suited { suit: Suit::Spades, number: Number::Two }),
{
    Card::Suited { suit: Suit::Spades, number: Number::Two }
}

#[allow(non_snake_case)]
pub fn S_3() -> (r: Card)
    ensures
        r == (Card::Suited { suit: Suit::Spades, number: Number::Three }),
{
    Card::Suited { suit: Suit::Spades, number: Number::Three }
}

#[allow(non_snake_case)]
pub fn S_4() -> (r: Card)
    ensures
        r == (Card::Suited { suit: Suit::Spades, number: Number::Four }),
{
    Card::Suited { suit: Suit::Spades, number: Number::Four }
}

#[allow(non_snake_case)]
pub fn S_5() -> (r: Card)
    ensures
        r == (Card::Suited { suit: Suit::Spades, number: Number::Five }),
{
    Card::Suited { suit: Suit::Spades, number: Number::Five }
}

#[allow(non_snake_case)]
pub fn S_6() -> (r: Card)
    ensures
        r == (Card::Suited { suit: Suit::Spades, number: Number::Six }),
{
    Card::Suited { suit: Suit::Spades, number: Number::Six }
}

#[allow(non_snake_case)]
pub fn S_7() -> (r: Card)
    ensures
        r == (Card::Suited { suit: Suit::Spades, number: Number::Seven }),
{
    Card::Suited { suit: Suit::Spades, number: Number::Seven }
}

#[allow(non_snake_case)]
pub fn S_8() -> (r: Card)
    ensures
        r == (Card::Suited { suit: Suit::Spades, number: Number::Eight }),
{
    Card::Suited { suit: Suit::Spades, number: Number::Eight }
}

#[allow(non_snake_case)]
pub fn S_9() -> (r: Card)
    ensures
        r == (Card::Suited { suit: Suit::Spades, number: Number::Nine }),
{
    Card::Suited { suit: Suit::Spades, number: Number::Nine }
}

#[allow(non_snake_case)]
pub fn S_10() -> (r: Card)
    ensures
        r == (Card::Suited { suit: Suit::Spades, number: Number::Ten }),
{
    Card::Suited { suit: Suit::Spades, number: Number::Ten }
}

#[allow(non_snake_case)]
pub fn S_J() -> (r: Card)
    ensures
        r == (Card::Suited { suit: Suit::Spades, number: Number::Jack }),
{
    Card::Suited { suit: Suit::Spades, number: Number::Jack }
}

#[allow(non_snake_case)]
pub fn S_Q() -> (r: Card)
    ensures
        r == (Card::Suited { suit: Suit::Spades, number: Number::Queen }),
{
    Card::Suited { suit: Suit::Spades, number: Number::Queen }
}

#[allow(non_snake_case)]
pub fn S_K() -> (r: Card)
    ensures
        r == (Card::Suited { suit: Suit::Spades, number: Number::King }),
{
    Card::Suited { suit: Suit::Spades, number: Number::King }
}

#[allow(non_snake_case)]
pub fn S_A() -> (r: Card)
    ensures
        r == (Card::Suited { suit: Suit::Spades, number: Number::Ace }),
{
    Card::Suited { suit: Suit::Spades, number: Number::Ace }
}

} // verus!
