//! Styling: the glyph and color pair each tile or entity kind is rendered
//! with. A pure capability of the kind; the host maps these colors onto its
//! terminal palette.

use vstd::prelude::*;
use crate::map::ThingType;
use crate::tile::Tile;

verus! {

/// The palette the game draws from.
#[derive(Clone, Copy, PartialEq, Eq, Structural, Debug)]
pub enum GameColor {
    Black,
    White,
    Red,
    Green,
    DarkGreen,
    Cyan,
    Yellow,
}

/// A foreground/background pair; `None` means the terminal's default.
#[derive(Clone, Copy, PartialEq, Eq, Structural, Debug)]
pub struct ColorPair {
    pub foreground: Option<GameColor>,
    pub background: Option<GameColor>,
}

pub open spec fn spec_tile_look(t: Tile) -> char {
    match t {
        Tile::Empty => '.',
        Tile::Wall => '#',
        Tile::Stairs { .. } => '>',
        Tile::Door(_) => '>',
        Tile::Key(_) => '*',
    }
}

pub open spec fn spec_tile_foreground(t: Tile) -> GameColor {
    match t {
        Tile::Empty => GameColor::Black,
        Tile::Wall => GameColor::White,
        Tile::Stairs { .. } => GameColor::Cyan,
        Tile::Door(_) => GameColor::Cyan,
        Tile::Key(_) => GameColor::Yellow,
    }
}

impl Tile {
    /// The glyph this tile is drawn as.
    pub fn look(&self) -> (c: char)
        ensures
            c == spec_tile_look(*self),
    {
        match self {
            Tile::Empty => '.',
            Tile::Wall => '#',
            Tile::Stairs { .. } => '>',
            Tile::Door(_) => '>',
            Tile::Key(_) => '*',
        }
    }

    /// The color pair this tile is drawn with: a kind-specific foreground on
    /// black.
    pub fn colors(&self) -> (c: ColorPair)
        ensures
            c.foreground == Some(spec_tile_foreground(*self)),
            c.background == Some(GameColor::Black),
    {
        ColorPair {
            foreground: Some(
                match self {
                    Tile::Empty => GameColor::Black,
                    Tile::Wall => GameColor::White,
                    Tile::Stairs { .. } => GameColor::Cyan,
                    Tile::Door(_) => GameColor::Cyan,
                    Tile::Key(_) => GameColor::Yellow,
                },
            ),
            background: Some(GameColor::Black),
        }
    }
}

pub open spec fn spec_thing_look(t: ThingType) -> char {
    if t.spec_is_player() {
        '@'
    } else {
        'G'
    }
}

pub open spec fn spec_thing_foreground(t: ThingType) -> GameColor {
    if t.spec_is_player() {
        GameColor::Green
    } else {
        GameColor::Red
    }
}

impl ThingType {
    /// The glyph this kind is drawn as.
    pub fn look(&self) -> (c: char)
        ensures
            c == spec_thing_look(*self),
    {
        if self.is_player() {
            '@'
        } else {
            'G'
        }
    }

    /// The color pair this kind is drawn with: green for the player, red for
    /// an adversary, both on black.
    pub fn colors(&self) -> (c: ColorPair)
        ensures
            c.foreground == Some(spec_thing_foreground(*self)),
            c.background == Some(GameColor::Black),
    {
        ColorPair {
            foreground: Some(
                if self.is_player() {
                    GameColor::Green
                } else {
                    GameColor::Red
                },
            ),
            background: Some(GameColor::Black),
        }
    }
}

} // verus!
