use vstd::prelude::*;

verus! {

/// A notification as it is handed to every channel of an endpoint.
pub struct Notification {
    pub title: String,
    pub message: String,
    pub to: Option<String>,
    pub from: Option<String>,
    pub level: String,
}

/// How a notification level is shown: a label, an emoji and a colour
/// (as an integer for embeds and as `#RRGGBB` for HTML).
pub struct LevelStyle {
    pub label: &'static str,
    pub emoji: &'static str,
    pub color: u64,
    pub hex_color: &'static str,
}

/// The level names that have a style of their own; any other level is
/// shown as a warning.
pub open spec fn is_error_level(level: Seq<char>) -> bool {
    level == "error"@
}

pub open spec fn is_info_level(level: Seq<char>) -> bool {
    level == "info"@
}

pub open spec fn level_label(level: Seq<char>) -> Seq<char> {
    if is_error_level(level) {
        "ERROR"@
    } else if is_info_level(level) {
        "INFO"@
    } else {
        "WARN"@
    }
}

pub open spec fn level_emoji(level: Seq<char>) -> Seq<char> {
    if is_error_level(level) {
        "❌"@
    } else if is_info_level(level) {
        "✅"@
    } else {
        "⚠️"@
    }
}

pub open spec fn level_color(level: Seq<char>) -> u64 {
    if is_error_level(level) {
        0xE74C3C
    } else if is_info_level(level) {
        0x2ECC71
    } else {
        0xF1C40F
    }
}

pub open spec fn level_hex_color(level: Seq<char>) -> Seq<char> {
    if is_error_level(level) {
        "#E74C3C"@
    } else if is_info_level(level) {
        "#2ECC71"@
    } else {
        "#F1C40F"@
    }
}

/// The style of a level: `error` is red, `info` green, and `warn`, like
/// every level not named here, yellow.
pub fn level_style(level: &str) -> (style: LevelStyle)
    ensures
        style.label@ == level_label(level@),
        style.emoji@ == level_emoji(level@),
        style.color == level_color(level@),
        style.hex_color@ == level_hex_color(level@),
{
    let given = String::from_str(level);
    if given == String::from_str("error") {
        LevelStyle { label: "ERROR", emoji: "❌", color: 0xE74C3C, hex_color: "#E74C3C" }
    } else if given == String::from_str("info") {
        LevelStyle { label: "INFO", emoji: "✅", color: 0x2ECC71, hex_color: "#2ECC71" }
    } else if given == String::from_str("warn") {
        LevelStyle { label: "WARN", emoji: "⚠️", color: 0xF1C40F, hex_color: "#F1C40F" }
    } else {
        LevelStyle { label: "WARN", emoji: "⚠️", color: 0xF1C40F, hex_color: "#F1C40F" }
    }
}

} // verus!
