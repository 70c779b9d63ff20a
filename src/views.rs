use vstd::prelude::*;
use crate::card::Decks;

verus! {

/// Whether a screen covers the one beneath it or is drawn over it.
#[derive(PartialEq, Eq, Debug, Copy, Clone)]
pub enum DrawKind {
    Opaque,
    OnTop,
}

#[derive(PartialEq, Eq, Debug, Copy, Clone)]
pub enum ButtonState {
    Normal,
    Selected,
}

/// A menu button: its label, look, the input it sends when clicked, and its indentation.
#[derive(Debug)]
pub struct ButtonSpec<I> {
    pub text: &'static str,
    pub state: ButtonState,
    pub on_click: I,
    pub indent_level: u32,
}

impl<I> ButtonSpec<I> {
    /// Two specs stand for the same button when label and indentation agree.
    pub fn matches(&self, other: &Self) -> (r: bool)
        ensures
            r == (self.text@ == other.text@ && self.indent_level == other.indent_level),
    {
        self.text.to_owned() == other.text.to_owned() && self.indent_level == other.indent_level
    }
}

/// The title screen's menu.
#[derive(Debug, Copy, Clone)]
pub struct MainMenu;

/// What every screen may read: the card decks.
#[derive(Debug)]
pub struct GameData {
    pub decks: Decks,
}

/// What loading produces: the decks and a renderer of the host's choosing.
#[derive(Debug)]
pub struct GameResources<R> {
    pub decks: Decks,
    pub renderer: R,
}

} // verus!
