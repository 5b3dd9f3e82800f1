//! Colors given as text, and the style classes and rules made for them.
use vstd::prelude::*;
use vstd::utf8::is_char_boundary;
use vstd::string::StringSliceAdditionalSpecFns;
use crate::text::{append_chars, chars_of, lit, lower_chars, lowercase_of, push_str, string_of, u64_text, decimal};

verus! {

// ---------------------------------------------------------------------------
// Hexadecimal colors
// ---------------------------------------------------------------------------

/// The value of a hexadecimal digit byte.
pub open spec fn hex_digit_spec(b: u8) -> Option<nat> {
    if 48 <= b <= 57 {
        Some((b - 48) as nat)
    } else if 97 <= b <= 102 {
        Some((b - 87) as nat)
    } else if 65 <= b <= 70 {
        Some((b - 55) as nat)
    } else {
        None
    }
}

fn hex_digit(b: u8) -> (r: Option<u8>)
    ensures
        match hex_digit_spec(b) {
            Some(v) => r == Some(v as u8),
            None => r is None,
        },
{
    if 48 <= b && b <= 57 {
        Some(b - 48)
    } else if 97 <= b && b <= 102 {
        Some(b - 87)
    } else if 65 <= b && b <= 70 {
        Some(b - 55)
    } else {
        None
    }
}

/// Two bytes read as a base-16 `u8` (`u8::from_str_radix` with radix 16): a
/// leading `+` is allowed before a single digit; anything else must be two
/// digits.
pub open spec fn hex_pair_spec(b0: u8, b1: u8) -> Option<u8> {
    if b0 == 43 {
        match hex_digit_spec(b1) {
            Some(d) => Some(d as u8),
            None => None,
        }
    } else {
        match (hex_digit_spec(b0), hex_digit_spec(b1)) {
            (Some(h), Some(l)) => Some((16 * h + l) as u8),
            _ => None,
        }
    }
}

fn hex_pair(b0: u8, b1: u8) -> (r: Option<u8>)
    ensures
        r == hex_pair_spec(b0, b1),
{
    if b0 == 43 {
        return hex_digit(b1);
    }
    match (hex_digit(b0), hex_digit(b1)) {
        (Some(h), Some(l)) => Some(16 * h + l),
        _ => None,
    }
}

/// The red, green and blue bytes of six hexadecimal-digit bytes.
pub open spec fn hex_rgb_spec(hex: Seq<u8>) -> Option<(u8, u8, u8)> {
    match (hex_pair_spec(hex[0], hex[1]), hex_pair_spec(hex[2], hex[3]), hex_pair_spec(hex[4], hex[5])) {
        (Some(r), Some(g), Some(b)) => Some((r, g, b)),
        _ => None,
    }
}

/// A color written `#rrggbb`: the bytes after the `#` must be six, read two
/// at a time as base-16 numbers.
pub open spec fn hex_color_spec(bytes: Seq<u8>) -> Option<(u8, u8, u8)> {
    if bytes.len() != 7 || bytes[0] != 35 {
        None
    } else {
        hex_rgb_spec(bytes.skip(1))
    }
}

/// Whether the text of a `#` color splits into pairs at character
/// boundaries; the original slicing stops the program otherwise.
pub open spec fn hex_color_splits(bytes: Seq<u8>) -> bool {
    bytes.len() == 7 && bytes[0] == 35 ==> is_char_boundary(bytes, 3) && is_char_boundary(bytes, 5)
}

/// The red, green and blue of a `#rrggbb` color; none for anything else.
pub fn parse_hex_color(color: &str) -> (r: Option<(u8, u8, u8)>)
    requires
        hex_color_splits(color.spec_bytes()),
    ensures
        r == hex_color_spec(color.spec_bytes()),
{
    let b = color.as_bytes();
    if b.len() != 7 || b[0] != 35 {
        return None;
    }
    let red = hex_pair(b[1], b[2]);
    let green = hex_pair(b[3], b[4]);
    let blue = hex_pair(b[5], b[6]);
    let ghost hex = b@.skip(1);
    assert(hex[0] == b@[1] && hex[1] == b@[2] && hex[2] == b@[3] && hex[3] == b@[4] && hex[4] == b@[5] && hex[5] == b@[6]);
    match (red, green, blue) {
        (Some(x), Some(y), Some(z)) => Some((x, y, z)),
        _ => None,
    }
}

// ---------------------------------------------------------------------------
// Filmstrip pill colors
// ---------------------------------------------------------------------------

/// The bytes of `s` with every leading `#` removed.
pub open spec fn strip_hashes(s: Seq<u8>) -> Seq<u8>
    decreases s.len(),
{
    if s.len() > 0 && s[0] == 35 {
        strip_hashes(s.skip(1))
    } else {
        s
    }
}

/// The characters of `s` with every leading `#` removed.
pub open spec fn strip_hash_chars(s: Seq<char>) -> Seq<char>
    decreases s.len(),
{
    if s.len() > 0 && s[0] == '#' {
        strip_hash_chars(s.skip(1))
    } else {
        s
    }
}

/// The style class of a filmstrip pill in a color: the color without its
/// `#`, lowercased.
pub open spec fn pill_class_spec(color: Seq<char>) -> Seq<char> {
    "filmstrip-pill-color-"@ + lowercase_of(strip_hash_chars(color))
}

fn strip_hash_chars_exec(s: &Vec<char>) -> (r: Vec<char>)
    ensures
        r@ == strip_hash_chars(s@),
{
    let mut i: usize = 0;
    assert(s@.skip(0) =~= s@);
    while i < s.len() && s[i] == '#'
        invariant
            i <= s@.len(),
            strip_hash_chars(s@) == strip_hash_chars(s@.skip(i as int)),
        decreases s@.len() - i,
    {
        assert(s@.skip(i as int).skip(1) =~= s@.skip(i + 1));
        i = i + 1;
    }
    assert(i < s@.len() ==> s@.skip(i as int)[0] == s@[i as int]);
    assert(s@.subrange(i as int, s@.len() as int) =~= s@.skip(i as int));
    crate::text::slice_chars(s, i, s.len())
}

/// The style class of a filmstrip pill in a color.
pub fn pill_color_class(color: &str) -> (r: String)
    ensures
        r@ == pill_class_spec(color@),
{
    let c = chars_of(color);
    let hex = strip_hash_chars_exec(&c);
    let key = lower_chars(&hex);
    let mut v = lit("filmstrip-pill-color-");
    append_chars(&mut v, &key);
    string_of(&v)
}

/// The style rule for a pill class: the color at 92% opacity, when the color
/// without its `#` is six hexadecimal digits.
pub open spec fn pill_rule_spec(class: Seq<char>, hex: Seq<u8>) -> Option<Seq<char>> {
    if hex.len() != 6 {
        None
    } else {
        match hex_rgb_spec(hex) {
            Some((r, g, b)) => Some(
                "."@ + class + " { background-color: rgba("@ + decimal(r as nat) + ","@ + decimal(g as nat) + ","@
                    + decimal(b as nat) + ",0.92); }"@,
            ),
            None => None,
        }
    }
}

/// Whether the color without its `#` splits into pairs at character
/// boundaries; the original slicing stops the program otherwise.
pub open spec fn pill_color_splits(bytes: Seq<u8>) -> bool {
    let hex = strip_hashes(bytes);
    hex.len() == 6 ==> is_char_boundary(hex, 2) && is_char_boundary(hex, 4)
}

fn strip_hashes_exec(b: &[u8]) -> (r: usize)
    ensures
        r <= b@.len(),
        strip_hashes(b@) == b@.skip(r as int),
{
    let mut i: usize = 0;
    assert(b@.skip(0) =~= b@);
    while i < b.len() && b[i] == 35
        invariant
            i <= b@.len(),
            strip_hashes(b@) == strip_hashes(b@.skip(i as int)),
        decreases b@.len() - i,
    {
        assert(b@.skip(i as int).skip(1) =~= b@.skip(i + 1));
        i = i + 1;
    }
    proof {
        if i < b@.len() {
            assert(b@.skip(i as int)[0] == b@[i as int]);
        }
    }
    i
}

/// The style rule that colors a pill of the given class.
pub fn pill_color_rule(class: &str, color: &str) -> (r: Option<String>)
    requires
        pill_color_splits(color.spec_bytes()),
    ensures
        crate::paths::opt_string_view(r) == pill_rule_spec(class@, strip_hashes(color.spec_bytes())),
{
    let b = color.as_bytes();
    let start = strip_hashes_exec(b);
    if b.len() - start != 6 {
        return None;
    }
    let ghost hex = b@.skip(start as int);
    let red = hex_pair(b[start], b[start + 1]);
    let green = hex_pair(b[start + 2], b[start + 3]);
    let blue = hex_pair(b[start + 4], b[start + 5]);
    match (red, green, blue) {
        (Some(x), Some(y), Some(z)) => {
            let mut v = lit(".");
            push_str(&mut v, class);
            push_str(&mut v, " { background-color: rgba(");
            append_chars(&mut v, &u64_text(x as u64));
            push_str(&mut v, ",");
            append_chars(&mut v, &u64_text(y as u64));
            push_str(&mut v, ",");
            append_chars(&mut v, &u64_text(z as u64));
            push_str(&mut v, ",0.92); }");
            Some(string_of(&v))
        },
        _ => None,
    }
}

// ---------------------------------------------------------------------------
// Tag card accents
// ---------------------------------------------------------------------------

/// Whether a character is replaced in an accent key.
pub open spec fn accent_replaced(c: char) -> bool {
    c == ' ' || c == '(' || c == ')' || c == ',' || c == '#' || c == '.'
}

/// The key of a color in accent class names: each space, parenthesis,
/// comma, `#` and `.` replaced by `_`, then lowercased.
pub open spec fn accent_key_spec(color: Seq<char>) -> Seq<char> {
    lowercase_of(color.map_values(|c: char| if accent_replaced(c) {
        '_'
    } else {
        c
    }))
}

/// The accent and icon style classes of a tag card in a color, and the rule
/// that colors them.
pub open spec fn accent_classes_spec(color: Seq<char>) -> (Seq<char>, Seq<char>, Seq<char>) {
    let accent = "tag-card-accent-"@ + accent_key_spec(color);
    let icon = "tag-card-icon-"@ + accent_key_spec(color);
    (accent, icon, "."@ + accent + " { background-color: "@ + color + "; } ."@ + icon + " { color: "@ + color + "; }"@)
}

fn accent_key(c: &Vec<char>) -> (r: Vec<char>)
    ensures
        r@ == accent_key_spec(c@),
{
    let mut replaced: Vec<char> = Vec::new();
    let mut i: usize = 0;
    while i < c.len()
        invariant
            i <= c@.len(),
            replaced@ == c@.take(i as int).map_values(|x: char| if accent_replaced(x) {
                '_'
            } else {
                x
            }),
        decreases c@.len() - i,
    {
        let x = c[i];
        if x == ' ' || x == '(' || x == ')' || x == ',' || x == '#' || x == '.' {
            replaced.push('_');
        } else {
            replaced.push(x);
        }
        i = i + 1;
        assert(replaced@ =~= c@.take(i as int).map_values(|x: char| if accent_replaced(x) {
            '_'
        } else {
            x
        }));
    }
    assert(c@.take(c@.len() as int) =~= c@);
    lower_chars(&replaced)
}

/// The accent and icon style classes of a tag card in a color, and the rule
/// that colors them.
pub fn accent_classes(color: &str) -> (r: (String, String, String))
    ensures
        (r.0@, r.1@, r.2@) == accent_classes_spec(color@),
{
    let c = chars_of(color);
    let key = accent_key(&c);
    let mut accent = lit("tag-card-accent-");
    append_chars(&mut accent, &key);
    let mut icon = lit("tag-card-icon-");
    append_chars(&mut icon, &key);
    let mut rule = lit(".");
    append_chars(&mut rule, &accent);
    push_str(&mut rule, " { background-color: ");
    append_chars(&mut rule, &c);
    push_str(&mut rule, "; } .");
    append_chars(&mut rule, &icon);
    push_str(&mut rule, " { color: ");
    append_chars(&mut rule, &c);
    push_str(&mut rule, "; }");
    (string_of(&accent), string_of(&icon), string_of(&rule))
}

/// A style class that colors icons in a color (`prefix` then the color's
/// key), and its rule.
pub open spec fn icon_color_spec(prefix: Seq<char>, color: Seq<char>) -> (Seq<char>, Seq<char>) {
    let class = prefix + accent_key_spec(color);
    (class, "."@ + class + " { color: "@ + color + "; }"@)
}

/// A style class that colors icons in a color, and its rule; the sidebar
/// uses the prefix `sharpr-icon-color-`, the tag list
/// `tag-browser-list-icon-`.
pub fn icon_color_class(prefix: &str, color: &str) -> (r: (String, String))
    ensures
        (r.0@, r.1@) == icon_color_spec(prefix@, color@),
{
    let c = chars_of(color);
    let key = accent_key(&c);
    let mut class = chars_of(prefix);
    append_chars(&mut class, &key);
    let mut rule = lit(".");
    append_chars(&mut rule, &class);
    push_str(&mut rule, " { color: ");
    append_chars(&mut rule, &c);
    push_str(&mut rule, "; }");
    (string_of(&class), string_of(&rule))
}

} // verus!
