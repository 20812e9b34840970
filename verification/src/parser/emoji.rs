//! Emoji shortcodes: the names that `:name:` may use and the emoji each stands for.

use vstd::prelude::*;
use crate::text::str_eq;

verus! {

/// Shortcodes, part 1.
pub open spec fn emoji_part1(name: Seq<char>) -> Option<Seq<char>> {
    if name == "smile"@ || name == "slightly_smiling_face"@ {
        Some("🙂"@)
    } else if name == "grinning"@ || name == "grin"@ {
        Some("😀"@)
    } else if name == "joy"@ || name == "laughing"@ {
        Some("😂"@)
    } else if name == "rofl"@ {
        Some("🤣"@)
    } else if name == "smiley"@ {
        Some("😃"@)
    } else if name == "blush"@ {
        Some("😊"@)
    } else if name == "wink"@ {
        Some("😉"@)
    } else if name == "heart_eyes"@ {
        Some("😍"@)
    } else if name == "kiss"@ {
        Some("😘"@)
    } else if name == "yum"@ {
        Some("😋"@)
    } else if name == "sunglasses"@ || name == "cool"@ {
        Some("😎"@)
    } else if name == "thinking"@ {
        Some("🤔"@)
    } else if name == "raised_eyebrow"@ {
        Some("🤨"@)
    } else if name == "neutral_face"@ {
        Some("😐"@)
    } else if name == "expressionless"@ {
        Some("😑"@)
    } else if name == "unamused"@ {
        Some("😒"@)
    } else if name == "roll_eyes"@ {
        Some("🙄"@)
    } else if name == "grimacing"@ {
        Some("😬"@)
    } else if name == "zipper_mouth"@ {
        Some("🤐"@)
    } else if name == "hushed"@ {
        Some("😯"@)
    } else if name == "flushed"@ {
        Some("😳"@)
    } else if name == "confounded"@ {
        Some("😖"@)
    } else if name == "disappointed"@ {
        Some("😞"@)
    } else if name == "worried"@ || name == "concerned"@ {
        Some("😟"@)
    } else if name == "cry"@ || name == "crying"@ {
        Some("😢"@)
    } else if name == "sob"@ {
        Some("😭"@)
    } else if name == "scream"@ {
        Some("😱"@)
    } else if name == "angry"@ || name == "rage"@ {
        Some("😡"@)
    } else if name == "triumph"@ {
        Some("😤"@)
    } else if name == "skull"@ || name == "dead"@ {
        Some("💀"@)
    } else {
        emoji_part2(name)
    }
}

/// Shortcodes, part 2.
pub open spec fn emoji_part2(name: Seq<char>) -> Option<Seq<char>> {
    if name == "poop"@ {
        Some("💩"@)
    } else if name == "clown"@ {
        Some("🤡"@)
    } else if name == "ghost"@ {
        Some("👻"@)
    } else if name == "alien"@ {
        Some("👽"@)
    } else if name == "robot"@ {
        Some("🤖"@)
    } else if name == "wave"@ {
        Some("👋"@)
    } else if name == "raised_hand"@ {
        Some("✋"@)
    } else if name == "ok_hand"@ {
        Some("👌"@)
    } else if name == "thumbsup"@ || name == "+1"@ || name == "thumbup"@ {
        Some("👍"@)
    } else if name == "thumbsdown"@ || name == "-1"@ || name == "thumbdown"@ {
        Some("👎"@)
    } else if name == "clap"@ {
        Some("👏"@)
    } else if name == "pray"@ {
        Some("🙏"@)
    } else if name == "point_right"@ {
        Some("👉"@)
    } else if name == "point_left"@ {
        Some("👈"@)
    } else if name == "point_up"@ {
        Some("☝️"@)
    } else if name == "point_down"@ {
        Some("👇"@)
    } else if name == "muscle"@ || name == "strong"@ {
        Some("💪"@)
    } else if name == "eyes"@ {
        Some("👀"@)
    } else if name == "heart"@ || name == "love"@ {
        Some("❤️"@)
    } else if name == "orange_heart"@ {
        Some("🧡"@)
    } else if name == "yellow_heart"@ {
        Some("💛"@)
    } else if name == "green_heart"@ {
        Some("💚"@)
    } else if name == "blue_heart"@ {
        Some("💙"@)
    } else if name == "purple_heart"@ {
        Some("💜"@)
    } else if name == "broken_heart"@ {
        Some("💔"@)
    } else if name == "star"@ {
        Some("⭐"@)
    } else if name == "sparkles"@ {
        Some("✨"@)
    } else if name == "fire"@ || name == "flame"@ {
        Some("🔥"@)
    } else if name == "tada"@ || name == "party"@ {
        Some("🎉"@)
    } else if name == "trophy"@ {
        Some("🏆"@)
    } else {
        emoji_part3(name)
    }
}

/// Shortcodes, part 3.
pub open spec fn emoji_part3(name: Seq<char>) -> Option<Seq<char>> {
    if name == "medal"@ {
        Some("🥇"@)
    } else if name == "rocket"@ {
        Some("🚀"@)
    } else if name == "boom"@ || name == "explosion"@ {
        Some("💥"@)
    } else if name == "warning"@ || name == "warn"@ {
        Some("⚠️"@)
    } else if name == "stop"@ || name == "prohibited"@ {
        Some("🚫"@)
    } else if name == "check"@ || name == "white_check_mark"@ {
        Some("✅"@)
    } else if name == "x"@ || name == "cross"@ {
        Some("❌"@)
    } else if name == "question"@ {
        Some("❓"@)
    } else if name == "exclamation"@ || name == "!"@ {
        Some("❗"@)
    } else if name == "info"@ {
        Some("ℹ️"@)
    } else if name == "bulb"@ || name == "idea"@ {
        Some("💡"@)
    } else if name == "gear"@ || name == "settings"@ {
        Some("⚙️"@)
    } else if name == "lock"@ {
        Some("🔒"@)
    } else if name == "unlock"@ {
        Some("🔓"@)
    } else if name == "key"@ {
        Some("🔑"@)
    } else if name == "link"@ {
        Some("🔗"@)
    } else if name == "email"@ || name == "mail"@ {
        Some("📧"@)
    } else if name == "phone"@ {
        Some("📱"@)
    } else if name == "computer"@ || name == "laptop"@ {
        Some("💻"@)
    } else if name == "keyboard"@ {
        Some("⌨️"@)
    } else if name == "mouse"@ {
        Some("🖱️"@)
    } else if name == "folder"@ {
        Some("📁"@)
    } else if name == "file"@ || name == "page"@ {
        Some("📄"@)
    } else if name == "pencil"@ || name == "edit"@ {
        Some("✏️"@)
    } else if name == "clipboard"@ {
        Some("📋"@)
    } else if name == "calendar"@ {
        Some("📅"@)
    } else if name == "clock"@ || name == "time"@ {
        Some("🕐"@)
    } else if name == "hourglass"@ {
        Some("⏳"@)
    } else if name == "search"@ || name == "mag"@ {
        Some("🔍"@)
    } else if name == "book"@ {
        Some("📖"@)
    } else {
        emoji_part4(name)
    }
}

/// Shortcodes, part 4.
pub open spec fn emoji_part4(name: Seq<char>) -> Option<Seq<char>> {
    if name == "books"@ {
        Some("📚"@)
    } else if name == "memo"@ || name == "note"@ {
        Some("📝"@)
    } else if name == "chart"@ || name == "graph"@ {
        Some("📊"@)
    } else if name == "money"@ || name == "cash"@ {
        Some("💰"@)
    } else if name == "sun"@ {
        Some("☀️"@)
    } else if name == "moon"@ {
        Some("🌙"@)
    } else if name == "cloud"@ {
        Some("☁️"@)
    } else if name == "rain"@ {
        Some("🌧️"@)
    } else if name == "snow"@ {
        Some("❄️"@)
    } else if name == "lightning"@ || name == "zap"@ {
        Some("⚡"@)
    } else if name == "cat"@ {
        Some("🐱"@)
    } else if name == "dog"@ {
        Some("🐶"@)
    } else if name == "pizza"@ {
        Some("🍕"@)
    } else if name == "coffee"@ {
        Some("☕"@)
    } else if name == "beer"@ {
        Some("🍺"@)
    } else if name == "wine"@ {
        Some("🍷"@)
    } else if name == "tada2"@ {
        Some("🎊"@)
    } else if name == "music"@ {
        Some("🎵"@)
    } else if name == "art"@ {
        Some("🎨"@)
    } else if name == "flag"@ {
        Some("🏳️"@)
    } else if name == "world"@ || name == "earth"@ {
        Some("🌍"@)
    } else if name == "house"@ || name == "home"@ {
        Some("🏠"@)
    } else if name == "car"@ {
        Some("🚗"@)
    } else if name == "airplane"@ {
        Some("✈️"@)
    } else {
        None
    }
}

/// The emoji that the shortcode `name` stands for, if any.
pub open spec fn emoji_for(name: Seq<char>) -> Option<Seq<char>> {
    emoji_part1(name)
}

fn lookup_part1(name: &str) -> (r: Option<&'static str>)
    ensures
        match r { Some(e) => emoji_part1(name@) == Some(e@), None => emoji_part1(name@) is None },
{
    if str_eq(name, "smile") || str_eq(name, "slightly_smiling_face") {
        Some("🙂")
    } else if str_eq(name, "grinning") || str_eq(name, "grin") {
        Some("😀")
    } else if str_eq(name, "joy") || str_eq(name, "laughing") {
        Some("😂")
    } else if str_eq(name, "rofl") {
        Some("🤣")
    } else if str_eq(name, "smiley") {
        Some("😃")
    } else if str_eq(name, "blush") {
        Some("😊")
    } else if str_eq(name, "wink") {
        Some("😉")
    } else if str_eq(name, "heart_eyes") {
        Some("😍")
    } else if str_eq(name, "kiss") {
        Some("😘")
    } else if str_eq(name, "yum") {
        Some("😋")
    } else if str_eq(name, "sunglasses") || str_eq(name, "cool") {
        Some("😎")
    } else if str_eq(name, "thinking") {
        Some("🤔")
    } else if str_eq(name, "raised_eyebrow") {
        Some("🤨")
    } else if str_eq(name, "neutral_face") {
        Some("😐")
    } else if str_eq(name, "expressionless") {
        Some("😑")
    } else if str_eq(name, "unamused") {
        Some("😒")
    } else if str_eq(name, "roll_eyes") {
        Some("🙄")
    } else if str_eq(name, "grimacing") {
        Some("😬")
    } else if str_eq(name, "zipper_mouth") {
        Some("🤐")
    } else if str_eq(name, "hushed") {
        Some("😯")
    } else if str_eq(name, "flushed") {
        Some("😳")
    } else if str_eq(name, "confounded") {
        Some("😖")
    } else if str_eq(name, "disappointed") {
        Some("😞")
    } else if str_eq(name, "worried") || str_eq(name, "concerned") {
        Some("😟")
    } else if str_eq(name, "cry") || str_eq(name, "crying") {
        Some("😢")
    } else if str_eq(name, "sob") {
        Some("😭")
    } else if str_eq(name, "scream") {
        Some("😱")
    } else if str_eq(name, "angry") || str_eq(name, "rage") {
        Some("😡")
    } else if str_eq(name, "triumph") {
        Some("😤")
    } else if str_eq(name, "skull") || str_eq(name, "dead") {
        Some("💀")
    } else {
        lookup_part2(name)
    }
}

fn lookup_part2(name: &str) -> (r: Option<&'static str>)
    ensures
        match r { Some(e) => emoji_part2(name@) == Some(e@), None => emoji_part2(name@) is None },
{
    if str_eq(name, "poop") {
        Some("💩")
    } else if str_eq(name, "clown") {
        Some("🤡")
    } else if str_eq(name, "ghost") {
        Some("👻")
    } else if str_eq(name, "alien") {
        Some("👽")
    } else if str_eq(name, "robot") {
        Some("🤖")
    } else if str_eq(name, "wave") {
        Some("👋")
    } else if str_eq(name, "raised_hand") {
        Some("✋")
    } else if str_eq(name, "ok_hand") {
        Some("👌")
    } else if str_eq(name, "thumbsup") || str_eq(name, "+1") || str_eq(name, "thumbup") {
        Some("👍")
    } else if str_eq(name, "thumbsdown") || str_eq(name, "-1") || str_eq(name, "thumbdown") {
        Some("👎")
    } else if str_eq(name, "clap") {
        Some("👏")
    } else if str_eq(name, "pray") {
        Some("🙏")
    } else if str_eq(name, "point_right") {
        Some("👉")
    } else if str_eq(name, "point_left") {
        Some("👈")
    } else if str_eq(name, "point_up") {
        Some("☝️")
    } else if str_eq(name, "point_down") {
        Some("👇")
    } else if str_eq(name, "muscle") || str_eq(name, "strong") {
        Some("💪")
    } else if str_eq(name, "eyes") {
        Some("👀")
    } else if str_eq(name, "heart") || str_eq(name, "love") {
        Some("❤️")
    } else if str_eq(name, "orange_heart") {
        Some("🧡")
    } else if str_eq(name, "yellow_heart") {
        Some("💛")
    } else if str_eq(name, "green_heart") {
        Some("💚")
    } else if str_eq(name, "blue_heart") {
        Some("💙")
    } else if str_eq(name, "purple_heart") {
        Some("💜")
    } else if str_eq(name, "broken_heart") {
        Some("💔")
    } else if str_eq(name, "star") {
        Some("⭐")
    } else if str_eq(name, "sparkles") {
        Some("✨")
    } else if str_eq(name, "fire") || str_eq(name, "flame") {
        Some("🔥")
    } else if str_eq(name, "tada") || str_eq(name, "party") {
        Some("🎉")
    } else if str_eq(name, "trophy") {
        Some("🏆")
    } else {
        lookup_part3(name)
    }
}

fn lookup_part3(name: &str) -> (r: Option<&'static str>)
    ensures
        match r { Some(e) => emoji_part3(name@) == Some(e@), None => emoji_part3(name@) is None },
{
    if str_eq(name, "medal") {
        Some("🥇")
    } else if str_eq(name, "rocket") {
        Some("🚀")
    } else if str_eq(name, "boom") || str_eq(name, "explosion") {
        Some("💥")
    } else if str_eq(name, "warning") || str_eq(name, "warn") {
        Some("⚠️")
    } else if str_eq(name, "stop") || str_eq(name, "prohibited") {
        Some("🚫")
    } else if str_eq(name, "check") || str_eq(name, "white_check_mark") {
        Some("✅")
    } else if str_eq(name, "x") || str_eq(name, "cross") {
        Some("❌")
    } else if str_eq(name, "question") {
        Some("❓")
    } else if str_eq(name, "exclamation") || str_eq(name, "!") {
        Some("❗")
    } else if str_eq(name, "info") {
        Some("ℹ️")
    } else if str_eq(name, "bulb") || str_eq(name, "idea") {
        Some("💡")
    } else if str_eq(name, "gear") || str_eq(name, "settings") {
        Some("⚙️")
    } else if str_eq(name, "lock") {
        Some("🔒")
    } else if str_eq(name, "unlock") {
        Some("🔓")
    } else if str_eq(name, "key") {
        Some("🔑")
    } else if str_eq(name, "link") {
        Some("🔗")
    } else if str_eq(name, "email") || str_eq(name, "mail") {
        Some("📧")
    } else if str_eq(name, "phone") {
        Some("📱")
    } else if str_eq(name, "computer") || str_eq(name, "laptop") {
        Some("💻")
    } else if str_eq(name, "keyboard") {
        Some("⌨️")
    } else if str_eq(name, "mouse") {
        Some("🖱️")
    } else if str_eq(name, "folder") {
        Some("📁")
    } else if str_eq(name, "file") || str_eq(name, "page") {
        Some("📄")
    } else if str_eq(name, "pencil") || str_eq(name, "edit") {
        Some("✏️")
    } else if str_eq(name, "clipboard") {
        Some("📋")
    } else if str_eq(name, "calendar") {
        Some("📅")
    } else if str_eq(name, "clock") || str_eq(name, "time") {
        Some("🕐")
    } else if str_eq(name, "hourglass") {
        Some("⏳")
    } else if str_eq(name, "search") || str_eq(name, "mag") {
        Some("🔍")
    } else if str_eq(name, "book") {
        Some("📖")
    } else {
        lookup_part4(name)
    }
}

fn lookup_part4(name: &str) -> (r: Option<&'static str>)
    ensures
        match r { Some(e) => emoji_part4(name@) == Some(e@), None => emoji_part4(name@) is None },
{
    if str_eq(name, "books") {
        Some("📚")
    } else if str_eq(name, "memo") || str_eq(name, "note") {
        Some("📝")
    } else if str_eq(name, "chart") || str_eq(name, "graph") {
        Some("📊")
    } else if str_eq(name, "money") || str_eq(name, "cash") {
        Some("💰")
    } else if str_eq(name, "sun") {
        Some("☀️")
    } else if str_eq(name, "moon") {
        Some("🌙")
    } else if str_eq(name, "cloud") {
        Some("☁️")
    } else if str_eq(name, "rain") {
        Some("🌧️")
    } else if str_eq(name, "snow") {
        Some("❄️")
    } else if str_eq(name, "lightning") || str_eq(name, "zap") {
        Some("⚡")
    } else if str_eq(name, "cat") {
        Some("🐱")
    } else if str_eq(name, "dog") {
        Some("🐶")
    } else if str_eq(name, "pizza") {
        Some("🍕")
    } else if str_eq(name, "coffee") {
        Some("☕")
    } else if str_eq(name, "beer") {
        Some("🍺")
    } else if str_eq(name, "wine") {
        Some("🍷")
    } else if str_eq(name, "tada2") {
        Some("🎊")
    } else if str_eq(name, "music") {
        Some("🎵")
    } else if str_eq(name, "art") {
        Some("🎨")
    } else if str_eq(name, "flag") {
        Some("🏳️")
    } else if str_eq(name, "world") || str_eq(name, "earth") {
        Some("🌍")
    } else if str_eq(name, "house") || str_eq(name, "home") {
        Some("🏠")
    } else if str_eq(name, "car") {
        Some("🚗")
    } else if str_eq(name, "airplane") {
        Some("✈️")
    } else {
        None
    }
}

/// The emoji that the shortcode `name` stands for, if any.
pub fn lookup_emoji(name: &str) -> (r: Option<&'static str>)
    ensures
        match r { Some(e) => emoji_for(name@) == Some(e@), None => emoji_for(name@) is None },
{
    lookup_part1(name)
}


/// The first of the shortcodes that stand for the same emoji as `name`:
/// `name` itself, or the name it is another spelling of.
pub open spec fn shortcode_group(name: Seq<char>) -> Option<Seq<char>> {
    if name == "smile"@ || name == "slightly_smiling_face"@ {
        Some("smile"@)
    } else if name == "grinning"@ || name == "grin"@ {
        Some("grinning"@)
    } else if name == "joy"@ || name == "laughing"@ {
        Some("joy"@)
    } else if name == "rofl"@ {
        Some("rofl"@)
    } else if name == "smiley"@ {
        Some("smiley"@)
    } else if name == "blush"@ {
        Some("blush"@)
    } else if name == "wink"@ {
        Some("wink"@)
    } else if name == "heart_eyes"@ {
        Some("heart_eyes"@)
    } else if name == "kiss"@ {
        Some("kiss"@)
    } else if name == "yum"@ {
        Some("yum"@)
    } else if name == "sunglasses"@ || name == "cool"@ {
        Some("sunglasses"@)
    } else if name == "thinking"@ {
        Some("thinking"@)
    } else if name == "raised_eyebrow"@ {
        Some("raised_eyebrow"@)
    } else if name == "neutral_face"@ {
        Some("neutral_face"@)
    } else if name == "expressionless"@ {
        Some("expressionless"@)
    } else if name == "unamused"@ {
        Some("unamused"@)
    } else if name == "roll_eyes"@ {
        Some("roll_eyes"@)
    } else if name == "grimacing"@ {
        Some("grimacing"@)
    } else if name == "zipper_mouth"@ {
        Some("zipper_mouth"@)
    } else if name == "hushed"@ {
        Some("hushed"@)
    } else if name == "flushed"@ {
        Some("flushed"@)
    } else if name == "confounded"@ {
        Some("confounded"@)
    } else if name == "disappointed"@ {
        Some("disappointed"@)
    } else if name == "worried"@ || name == "concerned"@ {
        Some("worried"@)
    } else if name == "cry"@ || name == "crying"@ {
        Some("cry"@)
    } else if name == "sob"@ {
        Some("sob"@)
    } else if name == "scream"@ {
        Some("scream"@)
    } else if name == "angry"@ || name == "rage"@ {
        Some("angry"@)
    } else if name == "triumph"@ {
        Some("triumph"@)
    } else if name == "skull"@ || name == "dead"@ {
        Some("skull"@)
    } else if name == "poop"@ {
        Some("poop"@)
    } else if name == "clown"@ {
        Some("clown"@)
    } else if name == "ghost"@ {
        Some("ghost"@)
    } else if name == "alien"@ {
        Some("alien"@)
    } else if name == "robot"@ {
        Some("robot"@)
    } else if name == "wave"@ {
        Some("wave"@)
    } else if name == "raised_hand"@ {
        Some("raised_hand"@)
    } else if name == "ok_hand"@ {
        Some("ok_hand"@)
    } else if name == "thumbsup"@ || name == "+1"@ || name == "thumbup"@ {
        Some("thumbsup"@)
    } else if name == "thumbsdown"@ || name == "-1"@ || name == "thumbdown"@ {
        Some("thumbsdown"@)
    } else if name == "clap"@ {
        Some("clap"@)
    } else if name == "pray"@ {
        Some("pray"@)
    } else if name == "point_right"@ {
        Some("point_right"@)
    } else if name == "point_left"@ {
        Some("point_left"@)
    } else if name == "point_up"@ {
        Some("point_up"@)
    } else if name == "point_down"@ {
        Some("point_down"@)
    } else if name == "muscle"@ || name == "strong"@ {
        Some("muscle"@)
    } else if name == "eyes"@ {
        Some("eyes"@)
    } else if name == "heart"@ || name == "love"@ {
        Some("heart"@)
    } else if name == "orange_heart"@ {
        Some("orange_heart"@)
    } else if name == "yellow_heart"@ {
        Some("yellow_heart"@)
    } else if name == "green_heart"@ {
        Some("green_heart"@)
    } else if name == "blue_heart"@ {
        Some("blue_heart"@)
    } else if name == "purple_heart"@ {
        Some("purple_heart"@)
    } else if name == "broken_heart"@ {
        Some("broken_heart"@)
    } else if name == "star"@ {
        Some("star"@)
    } else if name == "sparkles"@ {
        Some("sparkles"@)
    } else if name == "fire"@ || name == "flame"@ {
        Some("fire"@)
    } else if name == "tada"@ || name == "party"@ {
        Some("tada"@)
    } else if name == "trophy"@ {
        Some("trophy"@)
    } else if name == "medal"@ {
        Some("medal"@)
    } else if name == "rocket"@ {
        Some("rocket"@)
    } else if name == "boom"@ || name == "explosion"@ {
        Some("boom"@)
    } else if name == "warning"@ || name == "warn"@ {
        Some("warning"@)
    } else if name == "stop"@ || name == "prohibited"@ {
        Some("stop"@)
    } else if name == "check"@ || name == "white_check_mark"@ {
        Some("check"@)
    } else if name == "x"@ || name == "cross"@ {
        Some("x"@)
    } else if name == "question"@ {
        Some("question"@)
    } else if name == "exclamation"@ || name == "!"@ {
        Some("exclamation"@)
    } else if name == "info"@ {
        Some("info"@)
    } else if name == "bulb"@ || name == "idea"@ {
        Some("bulb"@)
    } else if name == "gear"@ || name == "settings"@ {
        Some("gear"@)
    } else if name == "lock"@ {
        Some("lock"@)
    } else if name == "unlock"@ {
        Some("unlock"@)
    } else if name == "key"@ {
        Some("key"@)
    } else if name == "link"@ {
        Some("link"@)
    } else if name == "email"@ || name == "mail"@ {
        Some("email"@)
    } else if name == "phone"@ {
        Some("phone"@)
    } else if name == "computer"@ || name == "laptop"@ {
        Some("computer"@)
    } else if name == "keyboard"@ {
        Some("keyboard"@)
    } else if name == "mouse"@ {
        Some("mouse"@)
    } else if name == "folder"@ {
        Some("folder"@)
    } else if name == "file"@ || name == "page"@ {
        Some("file"@)
    } else if name == "pencil"@ || name == "edit"@ {
        Some("pencil"@)
    } else if name == "clipboard"@ {
        Some("clipboard"@)
    } else if name == "calendar"@ {
        Some("calendar"@)
    } else if name == "clock"@ || name == "time"@ {
        Some("clock"@)
    } else if name == "hourglass"@ {
        Some("hourglass"@)
    } else if name == "search"@ || name == "mag"@ {
        Some("search"@)
    } else if name == "book"@ {
        Some("book"@)
    } else if name == "books"@ {
        Some("books"@)
    } else if name == "memo"@ || name == "note"@ {
        Some("memo"@)
    } else if name == "chart"@ || name == "graph"@ {
        Some("chart"@)
    } else if name == "money"@ || name == "cash"@ {
        Some("money"@)
    } else if name == "sun"@ {
        Some("sun"@)
    } else if name == "moon"@ {
        Some("moon"@)
    } else if name == "cloud"@ {
        Some("cloud"@)
    } else if name == "rain"@ {
        Some("rain"@)
    } else if name == "snow"@ {
        Some("snow"@)
    } else if name == "lightning"@ || name == "zap"@ {
        Some("lightning"@)
    } else if name == "cat"@ {
        Some("cat"@)
    } else if name == "dog"@ {
        Some("dog"@)
    } else if name == "pizza"@ {
        Some("pizza"@)
    } else if name == "coffee"@ {
        Some("coffee"@)
    } else if name == "beer"@ {
        Some("beer"@)
    } else if name == "wine"@ {
        Some("wine"@)
    } else if name == "tada2"@ {
        Some("tada2"@)
    } else if name == "music"@ {
        Some("music"@)
    } else if name == "art"@ {
        Some("art"@)
    } else if name == "flag"@ {
        Some("flag"@)
    } else if name == "world"@ || name == "earth"@ {
        Some("world"@)
    } else if name == "house"@ || name == "home"@ {
        Some("house"@)
    } else if name == "car"@ {
        Some("car"@)
    } else if name == "airplane"@ {
        Some("airplane"@)
    } else {
        None
    }
}

/// The shortcode of an emoji, told by its code points.
pub open spec fn emoji_shortcode(e: Seq<char>) -> Option<Seq<char>> {
    if e.len() == 1 && e[0] == '\u{1f642}' {
        Some("smile"@)
    } else if e.len() == 1 && e[0] == '\u{1f600}' {
        Some("grinning"@)
    } else if e.len() == 1 && e[0] == '\u{1f602}' {
        Some("joy"@)
    } else if e.len() == 1 && e[0] == '\u{1f923}' {
        Some("rofl"@)
    } else if e.len() == 1 && e[0] == '\u{1f603}' {
        Some("smiley"@)
    } else if e.len() == 1 && e[0] == '\u{1f60a}' {
        Some("blush"@)
    } else if e.len() == 1 && e[0] == '\u{1f609}' {
        Some("wink"@)
    } else if e.len() == 1 && e[0] == '\u{1f60d}' {
        Some("heart_eyes"@)
    } else if e.len() == 1 && e[0] == '\u{1f618}' {
        Some("kiss"@)
    } else if e.len() == 1 && e[0] == '\u{1f60b}' {
        Some("yum"@)
    } else if e.len() == 1 && e[0] == '\u{1f60e}' {
        Some("sunglasses"@)
    } else if e.len() == 1 && e[0] == '\u{1f914}' {
        Some("thinking"@)
    } else if e.len() == 1 && e[0] == '\u{1f928}' {
        Some("raised_eyebrow"@)
    } else if e.len() == 1 && e[0] == '\u{1f610}' {
        Some("neutral_face"@)
    } else if e.len() == 1 && e[0] == '\u{1f611}' {
        Some("expressionless"@)
    } else if e.len() == 1 && e[0] == '\u{1f612}' {
        Some("unamused"@)
    } else if e.len() == 1 && e[0] == '\u{1f644}' {
        Some("roll_eyes"@)
    } else if e.len() == 1 && e[0] == '\u{1f62c}' {
        Some("grimacing"@)
    } else if e.len() == 1 && e[0] == '\u{1f910}' {
        Some("zipper_mouth"@)
    } else if e.len() == 1 && e[0] == '\u{1f62f}' {
        Some("hushed"@)
    } else if e.len() == 1 && e[0] == '\u{1f633}' {
        Some("flushed"@)
    } else if e.len() == 1 && e[0] == '\u{1f616}' {
        Some("confounded"@)
    } else if e.len() == 1 && e[0] == '\u{1f61e}' {
        Some("disappointed"@)
    } else if e.len() == 1 && e[0] == '\u{1f61f}' {
        Some("worried"@)
    } else if e.len() == 1 && e[0] == '\u{1f622}' {
        Some("cry"@)
    } else if e.len() == 1 && e[0] == '\u{1f62d}' {
        Some("sob"@)
    } else if e.len() == 1 && e[0] == '\u{1f631}' {
        Some("scream"@)
    } else if e.len() == 1 && e[0] == '\u{1f621}' {
        Some("angry"@)
    } else if e.len() == 1 && e[0] == '\u{1f624}' {
        Some("triumph"@)
    } else if e.len() == 1 && e[0] == '\u{1f480}' {
        Some("skull"@)
    } else if e.len() == 1 && e[0] == '\u{1f4a9}' {
        Some("poop"@)
    } else if e.len() == 1 && e[0] == '\u{1f921}' {
        Some("clown"@)
    } else if e.len() == 1 && e[0] == '\u{1f47b}' {
        Some("ghost"@)
    } else if e.len() == 1 && e[0] == '\u{1f47d}' {
        Some("alien"@)
    } else if e.len() == 1 && e[0] == '\u{1f916}' {
        Some("robot"@)
    } else if e.len() == 1 && e[0] == '\u{1f44b}' {
        Some("wave"@)
    } else if e.len() == 1 && e[0] == '\u{270b}' {
        Some("raised_hand"@)
    } else if e.len() == 1 && e[0] == '\u{1f44c}' {
        Some("ok_hand"@)
    } else if e.len() == 1 && e[0] == '\u{1f44d}' {
        Some("thumbsup"@)
    } else if e.len() == 1 && e[0] == '\u{1f44e}' {
        Some("thumbsdown"@)
    } else if e.len() == 1 && e[0] == '\u{1f44f}' {
        Some("clap"@)
    } else if e.len() == 1 && e[0] == '\u{1f64f}' {
        Some("pray"@)
    } else if e.len() == 1 && e[0] == '\u{1f449}' {
        Some("point_right"@)
    } else if e.len() == 1 && e[0] == '\u{1f448}' {
        Some("point_left"@)
    } else if e.len() == 2 && e[0] == '\u{261d}' && e[1] == '\u{fe0f}' {
        Some("point_up"@)
    } else if e.len() == 1 && e[0] == '\u{1f447}' {
        Some("point_down"@)
    } else if e.len() == 1 && e[0] == '\u{1f4aa}' {
        Some("muscle"@)
    } else if e.len() == 1 && e[0] == '\u{1f440}' {
        Some("eyes"@)
    } else if e.len() == 2 && e[0] == '\u{2764}' && e[1] == '\u{fe0f}' {
        Some("heart"@)
    } else if e.len() == 1 && e[0] == '\u{1f9e1}' {
        Some("orange_heart"@)
    } else if e.len() == 1 && e[0] == '\u{1f49b}' {
        Some("yellow_heart"@)
    } else if e.len() == 1 && e[0] == '\u{1f49a}' {
        Some("green_heart"@)
    } else if e.len() == 1 && e[0] == '\u{1f499}' {
        Some("blue_heart"@)
    } else if e.len() == 1 && e[0] == '\u{1f49c}' {
        Some("purple_heart"@)
    } else if e.len() == 1 && e[0] == '\u{1f494}' {
        Some("broken_heart"@)
    } else if e.len() == 1 && e[0] == '\u{2b50}' {
        Some("star"@)
    } else if e.len() == 1 && e[0] == '\u{2728}' {
        Some("sparkles"@)
    } else if e.len() == 1 && e[0] == '\u{1f525}' {
        Some("fire"@)
    } else if e.len() == 1 && e[0] == '\u{1f389}' {
        Some("tada"@)
    } else if e.len() == 1 && e[0] == '\u{1f3c6}' {
        Some("trophy"@)
    } else if e.len() == 1 && e[0] == '\u{1f947}' {
        Some("medal"@)
    } else if e.len() == 1 && e[0] == '\u{1f680}' {
        Some("rocket"@)
    } else if e.len() == 1 && e[0] == '\u{1f4a5}' {
        Some("boom"@)
    } else if e.len() == 2 && e[0] == '\u{26a0}' && e[1] == '\u{fe0f}' {
        Some("warning"@)
    } else if e.len() == 1 && e[0] == '\u{1f6ab}' {
        Some("stop"@)
    } else if e.len() == 1 && e[0] == '\u{2705}' {
        Some("check"@)
    } else if e.len() == 1 && e[0] == '\u{274c}' {
        Some("x"@)
    } else if e.len() == 1 && e[0] == '\u{2753}' {
        Some("question"@)
    } else if e.len() == 1 && e[0] == '\u{2757}' {
        Some("exclamation"@)
    } else if e.len() == 2 && e[0] == '\u{2139}' && e[1] == '\u{fe0f}' {
        Some("info"@)
    } else if e.len() == 1 && e[0] == '\u{1f4a1}' {
        Some("bulb"@)
    } else if e.len() == 2 && e[0] == '\u{2699}' && e[1] == '\u{fe0f}' {
        Some("gear"@)
    } else if e.len() == 1 && e[0] == '\u{1f512}' {
        Some("lock"@)
    } else if e.len() == 1 && e[0] == '\u{1f513}' {
        Some("unlock"@)
    } else if e.len() == 1 && e[0] == '\u{1f511}' {
        Some("key"@)
    } else if e.len() == 1 && e[0] == '\u{1f517}' {
        Some("link"@)
    } else if e.len() == 1 && e[0] == '\u{1f4e7}' {
        Some("email"@)
    } else if e.len() == 1 && e[0] == '\u{1f4f1}' {
        Some("phone"@)
    } else if e.len() == 1 && e[0] == '\u{1f4bb}' {
        Some("computer"@)
    } else if e.len() == 2 && e[0] == '\u{2328}' && e[1] == '\u{fe0f}' {
        Some("keyboard"@)
    } else if e.len() == 2 && e[0] == '\u{1f5b1}' && e[1] == '\u{fe0f}' {
        Some("mouse"@)
    } else if e.len() == 1 && e[0] == '\u{1f4c1}' {
        Some("folder"@)
    } else if e.len() == 1 && e[0] == '\u{1f4c4}' {
        Some("file"@)
    } else if e.len() == 2 && e[0] == '\u{270f}' && e[1] == '\u{fe0f}' {
        Some("pencil"@)
    } else if e.len() == 1 && e[0] == '\u{1f4cb}' {
        Some("clipboard"@)
    } else if e.len() == 1 && e[0] == '\u{1f4c5}' {
        Some("calendar"@)
    } else if e.len() == 1 && e[0] == '\u{1f550}' {
        Some("clock"@)
    } else if e.len() == 1 && e[0] == '\u{23f3}' {
        Some("hourglass"@)
    } else if e.len() == 1 && e[0] == '\u{1f50d}' {
        Some("search"@)
    } else if e.len() == 1 && e[0] == '\u{1f4d6}' {
        Some("book"@)
    } else if e.len() == 1 && e[0] == '\u{1f4da}' {
        Some("books"@)
    } else if e.len() == 1 && e[0] == '\u{1f4dd}' {
        Some("memo"@)
    } else if e.len() == 1 && e[0] == '\u{1f4ca}' {
        Some("chart"@)
    } else if e.len() == 1 && e[0] == '\u{1f4b0}' {
        Some("money"@)
    } else if e.len() == 2 && e[0] == '\u{2600}' && e[1] == '\u{fe0f}' {
        Some("sun"@)
    } else if e.len() == 1 && e[0] == '\u{1f319}' {
        Some("moon"@)
    } else if e.len() == 2 && e[0] == '\u{2601}' && e[1] == '\u{fe0f}' {
        Some("cloud"@)
    } else if e.len() == 2 && e[0] == '\u{1f327}' && e[1] == '\u{fe0f}' {
        Some("rain"@)
    } else if e.len() == 2 && e[0] == '\u{2744}' && e[1] == '\u{fe0f}' {
        Some("snow"@)
    } else if e.len() == 1 && e[0] == '\u{26a1}' {
        Some("lightning"@)
    } else if e.len() == 1 && e[0] == '\u{1f431}' {
        Some("cat"@)
    } else if e.len() == 1 && e[0] == '\u{1f436}' {
        Some("dog"@)
    } else if e.len() == 1 && e[0] == '\u{1f355}' {
        Some("pizza"@)
    } else if e.len() == 1 && e[0] == '\u{2615}' {
        Some("coffee"@)
    } else if e.len() == 1 && e[0] == '\u{1f37a}' {
        Some("beer"@)
    } else if e.len() == 1 && e[0] == '\u{1f377}' {
        Some("wine"@)
    } else if e.len() == 1 && e[0] == '\u{1f38a}' {
        Some("tada2"@)
    } else if e.len() == 1 && e[0] == '\u{1f3b5}' {
        Some("music"@)
    } else if e.len() == 1 && e[0] == '\u{1f3a8}' {
        Some("art"@)
    } else if e.len() == 2 && e[0] == '\u{1f3f3}' && e[1] == '\u{fe0f}' {
        Some("flag"@)
    } else if e.len() == 1 && e[0] == '\u{1f30d}' {
        Some("world"@)
    } else if e.len() == 1 && e[0] == '\u{1f3e0}' {
        Some("house"@)
    } else if e.len() == 1 && e[0] == '\u{1f697}' {
        Some("car"@)
    } else if e.len() == 2 && e[0] == '\u{2708}' && e[1] == '\u{fe0f}' {
        Some("airplane"@)
    } else {
        None
    }
}

/// Every emoji of the table is the one its code points name: the emoji a
/// shortcode stands for names that shortcode (or the first spelling of it)
/// back, and a name stands for an emoji exactly when it is a shortcode.
pub proof fn lemma_emoji_names_its_shortcode(name: Seq<char>)
    ensures
        emoji_for(name) is Some <==> shortcode_group(name) is Some,
        emoji_for(name) is Some ==> emoji_shortcode(emoji_for(name).unwrap()) == shortcode_group(name),
{
    reveal_strlit("🙂");
    reveal_strlit("😀");
    reveal_strlit("😂");
    reveal_strlit("🤣");
    reveal_strlit("😃");
    reveal_strlit("😊");
    reveal_strlit("😉");
    reveal_strlit("😍");
    reveal_strlit("😘");
    reveal_strlit("😋");
    reveal_strlit("😎");
    reveal_strlit("🤔");
    reveal_strlit("🤨");
    reveal_strlit("😐");
    reveal_strlit("😑");
    reveal_strlit("😒");
    reveal_strlit("🙄");
    reveal_strlit("😬");
    reveal_strlit("🤐");
    reveal_strlit("😯");
    reveal_strlit("😳");
    reveal_strlit("😖");
    reveal_strlit("😞");
    reveal_strlit("😟");
    reveal_strlit("😢");
    reveal_strlit("😭");
    reveal_strlit("😱");
    reveal_strlit("😡");
    reveal_strlit("😤");
    reveal_strlit("💀");
    reveal_strlit("💩");
    reveal_strlit("🤡");
    reveal_strlit("👻");
    reveal_strlit("👽");
    reveal_strlit("🤖");
    reveal_strlit("👋");
    reveal_strlit("✋");
    reveal_strlit("👌");
    reveal_strlit("👍");
    reveal_strlit("👎");
    reveal_strlit("👏");
    reveal_strlit("🙏");
    reveal_strlit("👉");
    reveal_strlit("👈");
    reveal_strlit("☝️");
    reveal_strlit("👇");
    reveal_strlit("💪");
    reveal_strlit("👀");
    reveal_strlit("❤️");
    reveal_strlit("🧡");
    reveal_strlit("💛");
    reveal_strlit("💚");
    reveal_strlit("💙");
    reveal_strlit("💜");
    reveal_strlit("💔");
    reveal_strlit("⭐");
    reveal_strlit("✨");
    reveal_strlit("🔥");
    reveal_strlit("🎉");
    reveal_strlit("🏆");
    reveal_strlit("🥇");
    reveal_strlit("🚀");
    reveal_strlit("💥");
    reveal_strlit("⚠️");
    reveal_strlit("🚫");
    reveal_strlit("✅");
    reveal_strlit("❌");
    reveal_strlit("❓");
    reveal_strlit("❗");
    reveal_strlit("ℹ️");
    reveal_strlit("💡");
    reveal_strlit("⚙️");
    reveal_strlit("🔒");
    reveal_strlit("🔓");
    reveal_strlit("🔑");
    reveal_strlit("🔗");
    reveal_strlit("📧");
    reveal_strlit("📱");
    reveal_strlit("💻");
    reveal_strlit("⌨️");
    reveal_strlit("🖱️");
    reveal_strlit("📁");
    reveal_strlit("📄");
    reveal_strlit("✏️");
    reveal_strlit("📋");
    reveal_strlit("📅");
    reveal_strlit("🕐");
    reveal_strlit("⏳");
    reveal_strlit("🔍");
    reveal_strlit("📖");
    reveal_strlit("📚");
    reveal_strlit("📝");
    reveal_strlit("📊");
    reveal_strlit("💰");
    reveal_strlit("☀️");
    reveal_strlit("🌙");
    reveal_strlit("☁️");
    reveal_strlit("🌧️");
    reveal_strlit("❄️");
    reveal_strlit("⚡");
    reveal_strlit("🐱");
    reveal_strlit("🐶");
    reveal_strlit("🍕");
    reveal_strlit("☕");
    reveal_strlit("🍺");
    reveal_strlit("🍷");
    reveal_strlit("🎊");
    reveal_strlit("🎵");
    reveal_strlit("🎨");
    reveal_strlit("🏳️");
    reveal_strlit("🌍");
    reveal_strlit("🏠");
    reveal_strlit("🚗");
    reveal_strlit("✈️");
}

/// Different shortcodes stand for different emoji, unless they are two
/// spellings of one.
pub proof fn lemma_emoji_distinct(a: Seq<char>, b: Seq<char>)
    ensures
        emoji_for(a) is Some && emoji_for(a) == emoji_for(b) ==> shortcode_group(a) == shortcode_group(b),
{
    lemma_emoji_names_its_shortcode(a);
    lemma_emoji_names_its_shortcode(b);
}

} // verus!
