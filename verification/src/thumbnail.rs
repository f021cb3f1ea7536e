//! Which files get a thumbnail: those whose extension names an image format,
//! whatever the case of its letters.

use vstd::prelude::*;
use crate::path::{extension, extension_of_path};
use crate::text::chars_of;

verus! {

/// The lower-case form of an ASCII capital; any other character as it is.
pub open spec fn lower(c: char) -> char {
    if 'A' <= c && c <= 'Z' {
        ((c as u8) + 32) as char
    } else {
        c
    }
}

/// The text with its ASCII capitals in lower case.
pub open spec fn lowered(text: Seq<char>) -> Seq<char> {
    text.map_values(|c: char| lower(c))
}

/// The extensions of the image formats.
pub open spec fn image_extensions() -> Seq<Seq<char>> {
    seq![
        seq!['p', 'n', 'g'],
        seq!['j', 'p', 'g'],
        seq!['j', 'p', 'e', 'g'],
        seq!['w', 'e', 'b', 'p'],
        seq!['g', 'i', 'f'],
        seq!['b', 'm', 'p'],
        seq!['i', 'c', 'o'],
    ]
}

/// Whether the file at `path` gets a thumbnail.
pub open spec fn wants_thumbnail(path: Seq<char>) -> bool {
    match extension(path) {
        Some(e) => image_extensions().contains(lowered(e)),
        None => false,
    }
}

fn to_lower(c: char) -> (out: char)
    ensures
        out == lower(c),
{
    if 'A' <= c && c <= 'Z' {
        ((c as u8) + 32) as char
    } else {
        c
    }
}

/// Whether the extension of `path` is that of an image format: `png`, `jpg`,
/// `jpeg`, `webp`, `gif`, `bmp` or `ico`, in any mix of upper and lower case.
pub fn has_image_extension(path: &str) -> (out: bool)
    ensures
        out == wants_thumbnail(path@),
{
    let e = match extension_of_path(path) {
        Some(e) => chars_of(e.as_str()),
        None => {
            return false;
        },
    };
    let ghost low = lowered(e@);
    let ghost known = image_extensions();
    let found = if e.len() == 3 {
        let a = to_lower(e[0]);
        let b = to_lower(e[1]);
        let c = to_lower(e[2]);
        proof {
            assert(low =~= seq![a, b, c]);
        }
        (a == 'p' && b == 'n' && c == 'g') || (a == 'j' && b == 'p' && c == 'g') || (a == 'g' && b
            == 'i' && c == 'f') || (a == 'b' && b == 'm' && c == 'p') || (a == 'i' && b == 'c'
            && c == 'o')
    } else if e.len() == 4 {
        let a = to_lower(e[0]);
        let b = to_lower(e[1]);
        let c = to_lower(e[2]);
        let d = to_lower(e[3]);
        proof {
            assert(low =~= seq![a, b, c, d]);
        }
        (a == 'j' && b == 'p' && c == 'e' && d == 'g') || (a == 'w' && b == 'e' && c == 'b' && d
            == 'p')
    } else {
        false
    };
    proof {
        if found {
            assert(known[0] == seq!['p', 'n', 'g']);
            assert(known[1] == seq!['j', 'p', 'g']);
            assert(known[2] == seq!['j', 'p', 'e', 'g']);
            assert(known[3] == seq!['w', 'e', 'b', 'p']);
            assert(known[4] == seq!['g', 'i', 'f']);
            assert(known[5] == seq!['b', 'm', 'p']);
            assert(known[6] == seq!['i', 'c', 'o']);
            assert(exists|i: int| 0 <= i < known.len() && known[i] == low);
        } else {
            assert forall|i: int| 0 <= i < known.len() implies known[i] != low by {
                if known[i] == low {
                    assert(low.len() == known[i].len());
                    assert(low[0] == known[i][0]);
                    assert(low[1] == known[i][1]);
                    assert(low[2] == known[i][2]);
                    if low.len() == 4 {
                        assert(low[3] == known[i][3]);
                    }
                }
            }
        }
    }
    found
}

} // verus!
