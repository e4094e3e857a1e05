//! The rich-presence texts shown while in the menu and while playing.

use vstd::prelude::*;
use vstd::utf8::*;
use vstd::string::StringSliceAdditionalSpecFns;
use crate::levels::{asset_path, asset_path_defined, boundary, bytes_of, chars_from_byte, lemma_cut_after_ascii};
use crate::text::{push_str, score_label, score_line};

verus! {

broadcast use {encode_utf8_valid_utf8, encode_utf8_decode_utf8};

/// What the presence shows: a details line, a state line (`None`: the
/// state already shown stays), the large image key and its hover text.
pub struct PresenceText {
    pub details: String,
    pub state: Option<String>,
    pub large_image: String,
    pub large_text: String,
}

/// The image key shown with the presence.
pub open spec fn image_key() -> Seq<char> {
    "kamplud_"@
}

/// The hover text of the presence image.
pub open spec fn image_text() -> Seq<char> {
    "Kamplud': esperanta ludo!"@
}

/// The state line in the menu.
pub open spec fn menu_state() -> Seq<char> {
    "En menuo"@
}

/// Whether a current-level path can be cut after its "scenes/" prefix.
pub open spec fn level_state_defined(level: Seq<char>) -> bool {
    bytes_of(level).len() >= 7 && boundary(level, 7)
}

/// The state line while playing: "Ludante `", the level path less its first
/// seven bytes ("scenes/"), and "`".
pub open spec fn level_state(level: Seq<char>) -> Seq<char> {
    "Ludante `"@ + chars_from_byte(level, 7) + "`"@
}

fn image_texts() -> (res: (String, String))
    ensures
        res.0@ == image_key(),
        res.1@ == image_text(),
{
    (String::from_str("kamplud_"), String::from_str("Kamplud': esperanta ludo!"))
}

/// The presence while in the main menu.
pub fn menu_presence(score: usize) -> (res: PresenceText)
    ensures
        res.details@ == score_line(score as nat),
        res.state matches Some(s) && s@ == menu_state(),
        res.large_image@ == image_key(),
        res.large_text@ == image_text(),
{
    let (large_image, large_text) = image_texts();
    PresenceText {
        details: score_label(score),
        state: Some(String::from_str("En menuo")),
        large_image,
        large_text,
    }
}

/// The presence when a level starts; with no current level the state line
/// is left as it was.
pub fn level_presence(score: usize, level: Option<&str>) -> (res: PresenceText)
    requires
        level matches Some(l) ==> level_state_defined(l@),
    ensures
        res.details@ == score_line(score as nat),
        level is None ==> res.state is None,
        level matches Some(l) ==> (res.state matches Some(s) && s@ == level_state(l@)),
        res.large_image@ == image_key(),
        res.large_text@ == image_text(),
{
    let (large_image, large_text) = image_texts();
    let state = match level {
        Some(l) => {
            let (_, tail) = l.split_at(7);
            assert(decode_utf8(encode_utf8(tail@)) == tail@);
            let mut s = String::from_str("Ludante `");
            push_str(&mut s, tail);
            push_str(&mut s, "`");
            Some(s)
        },
        None => None,
    };
    PresenceText { details: score_label(score), state, large_image, large_text }
}

/// A level listed as "./assets/scenes/NAME" is stored as the current
/// level "scenes/NAME", and while it is played the presence reads
/// "Ludante `NAME`".
pub proof fn lemma_chosen_level_presence(name: Seq<char>)
    ensures
        asset_path_defined("./assets/scenes/"@ + name),
        asset_path("./assets/scenes/"@ + name) == "scenes/"@ + name,
        level_state_defined("scenes/"@ + name),
        level_state("scenes/"@ + name) == "Ludante `"@ + name + "`"@,
{
    reveal_strlit("./assets/scenes/");
    reveal_strlit("./assets/");
    reveal_strlit("scenes/");
    let assets = "./assets/"@;
    let scenes = "scenes/"@;
    assert(assets.len() == 9);
    assert(scenes.len() == 7);
    assert(is_ascii_chars(assets));
    assert(is_ascii_chars(scenes));
    assert("./assets/scenes/"@ + name =~= assets + (scenes + name));
    lemma_cut_after_ascii(assets, scenes + name);
    lemma_cut_after_ascii(scenes, name);
}

} // verus!
