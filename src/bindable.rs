use vstd::prelude::*;

verus! {

/// Elemental affinity of an attack or an entity.
#[derive(PartialEq, Eq, Structural, Clone, Copy, Debug)]
pub enum Element {
    Neutral,
    Fire,
    Aqua,
    Elec,
    Wood,
    Sword,
    Wind,
    Cursor,
    Summon,
    Plus,
    Break,
}

/// The weakness table: `a` takes extra damage from `b`.
pub open spec fn weak_to(a: Element, b: Element) -> bool {
    ||| (a == Element::Aqua && b == Element::Elec)
    ||| (a == Element::Fire && b == Element::Aqua)
    ||| (a == Element::Wood && b == Element::Fire)
    ||| (a == Element::Elec && b == Element::Wood)
    ||| (a == Element::Sword && b == Element::Break)
    ||| (a == Element::Wind && b == Element::Sword)
    ||| (a == Element::Cursor && b == Element::Wind)
    ||| (a == Element::Break && b == Element::Cursor)
}

/// Position of each element in its numeric encoding.
pub open spec fn element_code(e: Element) -> u8 {
    match e {
        Element::Neutral => 0,
        Element::Fire => 1,
        Element::Aqua => 2,
        Element::Elec => 3,
        Element::Wood => 4,
        Element::Sword => 5,
        Element::Wind => 6,
        Element::Cursor => 7,
        Element::Summon => 8,
        Element::Plus => 9,
        Element::Break => 10,
    }
}

impl Element {
    pub fn is_weak_to(self, other: Element) -> (r: bool)
        ensures
            r == weak_to(self, other),
    {
        match (self, other) {
            (Element::Aqua, Element::Elec) => true,
            (Element::Fire, Element::Aqua) => true,
            (Element::Wood, Element::Fire) => true,
            (Element::Elec, Element::Wood) => true,
            (Element::Sword, Element::Break) => true,
            (Element::Wind, Element::Sword) => true,
            (Element::Cursor, Element::Wind) => true,
            (Element::Break, Element::Cursor) => true,
            _ => false,
        }
    }

    /// Decodes an element from its numeric encoding.
    pub fn from_u8(n: u8) -> (r: Option<Element>)
        ensures
            r.is_some() <==> n <= 10,
            r.is_some() ==> element_code(r.unwrap()) == n,
    {
        match n {
            0 => Some(Element::Neutral),
            1 => Some(Element::Fire),
            2 => Some(Element::Aqua),
            3 => Some(Element::Elec),
            4 => Some(Element::Wood),
            5 => Some(Element::Sword),
            6 => Some(Element::Wind),
            7 => Some(Element::Cursor),
            8 => Some(Element::Summon),
            9 => Some(Element::Plus),
            10 => Some(Element::Break),
            _ => None,
        }
    }

    pub fn to_u8(self) -> (r: u8)
        ensures
            r == element_code(self),
    {
        match self {
            Element::Neutral => 0,
            Element::Fire => 1,
            Element::Aqua => 2,
            Element::Elec => 3,
            Element::Wood => 4,
            Element::Sword => 5,
            Element::Wind => 6,
            Element::Cursor => 7,
            Element::Summon => 8,
            Element::Plus => 9,
            Element::Break => 10,
        }
    }
}

impl Default for Element {
    fn default() -> (r: Element)
        ensures
            r == Element::Neutral,
    {
        Element::Neutral
    }
}

/// Rarity class of a card.
#[derive(PartialEq, Eq, Structural, Clone, Copy, Debug)]
pub enum CardClass {
    Standard,
    Mega,
    Giga,
    Dark,
}

pub open spec fn card_class_code(c: CardClass) -> u8 {
    match c {
        CardClass::Standard => 0,
        CardClass::Mega => 1,
        CardClass::Giga => 2,
        CardClass::Dark => 3,
    }
}

impl CardClass {
    /// Decodes a card class from its numeric encoding.
    pub fn from_u8(n: u8) -> (r: Option<CardClass>)
        ensures
            r.is_some() <==> n <= 3,
            r.is_some() ==> card_class_code(r.unwrap()) == n,
    {
        match n {
            0 => Some(CardClass::Standard),
            1 => Some(CardClass::Mega),
            2 => Some(CardClass::Giga),
            3 => Some(CardClass::Dark),
            _ => None,
        }
    }

    pub fn to_u8(self) -> (r: u8)
        ensures
            r == card_class_code(self),
    {
        match self {
            CardClass::Standard => 0,
            CardClass::Mega => 1,
            CardClass::Giga => 2,
            CardClass::Dark => 3,
        }
    }
}

impl Default for CardClass {
    fn default() -> (r: CardClass)
        ensures
            r == CardClass::Standard,
    {
        CardClass::Standard
    }
}

/// A logical player input.
#[derive(PartialEq, Eq, Structural, Clone, Copy, Debug, Hash)]
pub enum Input {
    Up,
    Down,
    Left,
    Right,
    UseCard,
    Shoot,
    Special,
    Pause,
    Confirm,
    Cancel,
    Option,
    Sprint,
    ShoulderL,
    ShoulderR,
    Minimap,
    AdvanceFrame,
    RewindFrame,
}

impl Input {
    /// The inputs every control scheme must bind.
    pub fn required_inputs() -> (r: Vec<Input>)
        ensures
            r@ == seq![
                Input::Up,
                Input::Down,
                Input::Left,
                Input::Right,
                Input::Cancel,
                Input::Confirm,
                Input::Pause,
                Input::Option,
                Input::ShoulderL,
                Input::ShoulderR,
            ],
    {
        vec![
            Input::Up,
            Input::Down,
            Input::Left,
            Input::Right,
            Input::Cancel,
            Input::Confirm,
            Input::Pause,
            Input::Option,
            Input::ShoulderL,
            Input::ShoulderR,
        ]
    }
}

/// Side of the field an entity fights for.
#[derive(PartialEq, Eq, Structural, Clone, Copy, Debug)]
pub enum Team {
    Unset,
    Other,
    Red,
    Blue,
}

/// Facing of an entity or the default facing of a tile.
#[derive(PartialEq, Eq, Structural, Clone, Copy, Debug)]
pub enum Direction {
    Unset,
    Left,
    Right,
}

} // verus!
