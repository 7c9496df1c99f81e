//! Chat text components and their colour names.
use vstd::prelude::*;

verus! {

/// The colours a chat component can have.
#[derive(Clone, Copy, Debug, PartialEq, Eq, Structural)]
pub enum ChatColor {
    Black,
    DarkBlue,
    DarkGreen,
    DarkAqua,
    DarkRed,
    DarkPurple,
    Gold,
    Gray,
    DarkGray,
    Blue,
    Green,
    Aqua,
    Red,
    LightPurple,
    Yellow,
    White,
    NoColor,
}

/// What clicking a chat component does.
#[derive(Clone, Copy, Debug, PartialEq, Eq, Structural)]
pub enum ClickEventType {
    OpenUrl,
    RunCommand,
    SuggestCommand,
    ChangePage,
}

/// What hovering over a chat component shows.
#[derive(Clone, Copy, Debug, PartialEq, Eq, Structural)]
pub enum HoverEventType {
    ShowText,
    ShowItem,
    ShowEntity,
    ChangePage,
}

/// A piece of chat text with its style and the pieces that follow it.
pub struct ChatComponent {
    pub text: String,
    pub color: ChatColor,
    pub obfuscated: bool,
    pub bold: bool,
    pub strikethrough: bool,
    pub underline: bool,
    pub italic: bool,
    pub reset: bool,
    pub extra: Vec<ChatComponent>,
}

/// The colour-name token of `cc`; empty for no colour.
pub open spec fn color_name(cc: ChatColor) -> &'static str {
    match cc {
        ChatColor::Black => "black",
        ChatColor::DarkBlue => "dark_blue",
        ChatColor::DarkGreen => "dark_green",
        ChatColor::DarkAqua => "dark_aqua",
        ChatColor::DarkRed => "dark_red",
        ChatColor::DarkPurple => "dark_purple",
        ChatColor::Gold => "gold",
        ChatColor::Gray => "gray",
        ChatColor::DarkGray => "dark_gray",
        ChatColor::Blue => "blue",
        ChatColor::Green => "green",
        ChatColor::Aqua => "aqua",
        ChatColor::Red => "red",
        ChatColor::LightPurple => "light_purple",
        ChatColor::Yellow => "yellow",
        ChatColor::White => "white",
        ChatColor::NoColor => "",
    }
}

impl ChatComponent {
    /// Plain text: no colour, no style, nothing after it.
    pub fn new(text: String) -> (r: Self)
        ensures
            r.text == text,
            r.color == ChatColor::NoColor,
            !r.obfuscated && !r.bold && !r.strikethrough && !r.underline && !r.italic && !r.reset,
            r.extra@.len() == 0,
    {
        ChatComponent {
            text,
            color: ChatColor::NoColor,
            obfuscated: false,
            bold: false,
            strikethrough: false,
            underline: false,
            italic: false,
            reset: false,
            extra: Vec::new(),
        }
    }

    /// The colour-name token of `cc`.
    pub fn color_to_str(cc: ChatColor) -> (r: &'static str)
        ensures
            r == color_name(cc),
    {
        match cc {
            ChatColor::Black => "black",
            ChatColor::DarkBlue => "dark_blue",
            ChatColor::DarkGreen => "dark_green",
            ChatColor::DarkAqua => "dark_aqua",
            ChatColor::DarkRed => "dark_red",
            ChatColor::DarkPurple => "dark_purple",
            ChatColor::Gold => "gold",
            ChatColor::Gray => "gray",
            ChatColor::DarkGray => "dark_gray",
            ChatColor::Blue => "blue",
            ChatColor::Green => "green",
            ChatColor::Aqua => "aqua",
            ChatColor::Red => "red",
            ChatColor::LightPurple => "light_purple",
            ChatColor::Yellow => "yellow",
            ChatColor::White => "white",
            ChatColor::NoColor => "",
        }
    }
}

} // verus!
