//! Keyboard-shortcut defaults: plain data handed to the configuration layer.

use vstd::prelude::*;

verus! {

/// One shortcut: the key names that trigger it and its display label.
pub struct Shortcut {
    pub keys: Vec<String>,
    pub label: String,
}

/// The full set of shortcuts the viewer knows.
pub struct Shortcuts {
    pub open_file: Shortcut,
    pub save_image_as: Shortcut,
    pub previous_image: Shortcut,
    pub next_image: Shortcut,
    pub zoom_in: Shortcut,
    pub zoom_out: Shortcut,
    pub rotate_clockwise: Shortcut,
    pub rotate_counterclockwise: Shortcut,
    pub toggle_fullscreen: Shortcut,
    pub toggle_exif: Shortcut,
    pub toggle_options: Shortcut,
    pub zoom_modifier_up: Shortcut,
    pub zoom_modifier_down: Shortcut,
}

/// Whether a shortcut holds exactly the given keys and label.
pub open spec fn spec_shortcut(s: Shortcut, keys: Seq<Seq<char>>, label: Seq<char>) -> bool {
    s.keys.deep_view() == keys && s.label@ == label
}

/// Whether a set of shortcuts holds the documented defaults.
pub open spec fn spec_default_shortcuts(s: Shortcuts) -> bool {
    &&& spec_shortcut(s.open_file, seq!["o"@], "o"@)
    &&& spec_shortcut(s.save_image_as, seq!["c"@], "c"@)
    &&& spec_shortcut(s.previous_image, seq!["ArrowLeft"@], "←"@)
    &&& spec_shortcut(s.next_image, seq!["ArrowRight"@], "→"@)
    &&& spec_shortcut(s.zoom_in, seq!["+"@, "="@, "ArrowUp"@], "+ / ↑"@)
    &&& spec_shortcut(s.zoom_out, seq!["-"@, "_"@, "ArrowDown"@], "- / ↓"@)
    &&& spec_shortcut(s.rotate_clockwise, seq!["t"@], "t"@)
    &&& spec_shortcut(s.rotate_counterclockwise, seq!["r"@], "r"@)
    &&& spec_shortcut(s.toggle_fullscreen, seq!["f"@], "f"@)
    &&& spec_shortcut(s.toggle_exif, seq!["i"@], "i"@)
    &&& spec_shortcut(s.toggle_options, seq!["m"@], "m"@)
    &&& spec_shortcut(s.zoom_modifier_up, seq!["Control"@], "Control"@)
    &&& spec_shortcut(s.zoom_modifier_down, seq!["Alt"@], "Alt / Command"@)
}

/// Builds one shortcut with a single key.
fn one_key(key: &str, label: &str) -> (s: Shortcut)
    ensures
        spec_shortcut(s, seq![key@], label@),
{
    let mut keys: Vec<String> = Vec::new();
    keys.push(key.to_owned());
    let s = Shortcut { keys, label: label.to_owned() };
    proof {
        assert(s.keys.deep_view() =~= seq![key@]);
    }
    s
}

/// Builds one shortcut with three keys.
fn three_keys(k0: &str, k1: &str, k2: &str, label: &str) -> (s: Shortcut)
    ensures
        spec_shortcut(s, seq![k0@, k1@, k2@], label@),
{
    let mut keys: Vec<String> = Vec::new();
    keys.push(k0.to_owned());
    keys.push(k1.to_owned());
    keys.push(k2.to_owned());
    let s = Shortcut { keys, label: label.to_owned() };
    proof {
        assert(s.keys.deep_view() =~= seq![k0@, k1@, k2@]);
    }
    s
}

/// The documented default shortcuts.
pub fn default_shortcuts() -> (s: Shortcuts)
    ensures
        spec_default_shortcuts(s),
{
    Shortcuts {
        open_file: one_key("o", "o"),
        save_image_as: one_key("c", "c"),
        previous_image: one_key("ArrowLeft", "←"),
        next_image: one_key("ArrowRight", "→"),
        zoom_in: three_keys("+", "=", "ArrowUp", "+ / ↑"),
        zoom_out: three_keys("-", "_", "ArrowDown", "- / ↓"),
        rotate_clockwise: one_key("t", "t"),
        rotate_counterclockwise: one_key("r", "r"),
        toggle_fullscreen: one_key("f", "f"),
        toggle_exif: one_key("i", "i"),
        toggle_options: one_key("m", "m"),
        zoom_modifier_up: one_key("Control", "Control"),
        zoom_modifier_down: one_key("Alt", "Alt / Command"),
    }
}

} // verus!
