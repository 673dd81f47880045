//! Text helpers shared by the classification and the export.

use vstd::prelude::*;

verus! {

/// What `str::to_lowercase` returns for a string: the result depends on the
/// characters alone.
pub uninterp spec fn lower_of(s: Seq<char>) -> Seq<char>;

/// The ASCII lower case of a character: a capital letter becomes the small
/// letter, every other character stays.
pub open spec fn ascii_lower_char(c: char) -> char {
    match c {
        'A' => 'a',
        'B' => 'b',
        'C' => 'c',
        'D' => 'd',
        'E' => 'e',
        'F' => 'f',
        'G' => 'g',
        'H' => 'h',
        'I' => 'i',
        'J' => 'j',
        'K' => 'k',
        'L' => 'l',
        'M' => 'm',
        'N' => 'n',
        'O' => 'o',
        'P' => 'p',
        'Q' => 'q',
        'R' => 'r',
        'S' => 's',
        'T' => 't',
        'U' => 'u',
        'V' => 'v',
        'W' => 'w',
        'X' => 'x',
        'Y' => 'y',
        'Z' => 'z',
        _ => c,
    }
}

/// Every character of the text is ASCII.
pub open spec fn is_ascii_text(s: Seq<char>) -> bool {
    forall|i: int| 0 <= i < s.len() ==> #[trigger] s[i] <= '\u{7f}'
}

/// The text with its ASCII capital letters made small.
pub open spec fn ascii_lower_text(s: Seq<char>) -> Seq<char> {
    s.map_values(|c: char| ascii_lower_char(c))
}

/// Relies on `str::to_lowercase`: its result is a function of the characters
/// of its argument; on ASCII text it makes each capital letter small and keeps
/// every other character.
#[verifier::external_body]
pub(crate) fn lowercase(s: &str) -> (r: String)
    ensures
        r@ == lower_of(s@),
        is_ascii_text(s@) ==> r@ == ascii_lower_text(s@),
{
    s.to_lowercase()
}

/// The address that the bridge gives a source-network handle on the
/// destination network: the lower-cased handle, `@`, and the bridge's domain.
pub open spec fn destination_address(handle: Seq<char>, bridge_domain: Seq<char>) -> Seq<char> {
    lower_of(handle) + seq!['@'] + bridge_domain
}

/// Builds the destination-network address of a handle.
pub fn bluesky_handle_to_mastodon(handle: &str, bridge_domain: &str) -> (r: String)
    ensures
        r@ == destination_address(handle@, bridge_domain@),
        is_ascii_text(handle@) ==> r@ == ascii_lower_text(handle@) + seq!['@'] + bridge_domain@,
{
    let mut address = lowercase(handle);
    proof {
        reveal_strlit("@");
    }
    address.append("@");
    address.append(bridge_domain);
    address
}

/// The text of each string of a sequence.
pub open spec fn strings_view(items: Seq<String>) -> Seq<Seq<char>> {
    items.map_values(|s: String| s@)
}

/// Tells whether `items` holds a string with the same text as `s`.
pub fn contains_string(items: &Vec<String>, s: &String) -> (r: bool)
    ensures
        r == strings_view(items@).contains(s@),
{
    let mut i: usize = 0;
    while i < items.len()
        invariant
            i <= items.len(),
            forall|j: int| 0 <= j < i ==> items@[j]@ != s@,
        decreases items.len() - i,
    {
        if items[i] == *s {
            assert(strings_view(items@)[i as int] == s@);
            return true;
        }
        i += 1;
    }
    assert(!strings_view(items@).contains(s@)) by {
        if strings_view(items@).contains(s@) {
            let j = choose|j: int| 0 <= j < items@.len() && strings_view(items@)[j] == s@;
            assert(items@[j]@ == s@);
        }
    }
    false
}

/// `true` in green, `false` in red, as terminal escape sequences.
pub open spec fn colored_bool(value: bool) -> Seq<char> {
    if value {
        seq!['\x1b', '[', '3', '2', 'm', 't', 'r', 'u', 'e', '\x1b', '[', '0', 'm']
    } else {
        seq!['\x1b', '[', '3', '1', 'm', 'f', 'a', 'l', 's', 'e', '\x1b', '[', '0', 'm']
    }
}

/// Renders a boolean for the terminal: green `true` or red `false`.
pub fn color_bool(value: bool) -> (r: String)
    ensures
        r@ == colored_bool(value),
{
    if value {
        proof {
            reveal_strlit("\x1b[32mtrue\x1b[0m");
        }
        String::from_str("\x1b[32mtrue\x1b[0m")
    } else {
        proof {
            reveal_strlit("\x1b[31mfalse\x1b[0m");
        }
        String::from_str("\x1b[31mfalse\x1b[0m")
    }
}

} // verus!
