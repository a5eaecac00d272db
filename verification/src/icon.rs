use vstd::prelude::*;
use vstd::string::StrSliceExecFns;
use crate::order::str_eq;

verus! {

/// Index of the last `.` in a name, if any.
pub open spec fn rfind_dot(name: Seq<char>) -> Option<int>
    decreases name.len(),
{
    if name.len() == 0 {
        None
    } else if name.last() == '.' {
        Some(name.len() - 1)
    } else {
        rfind_dot(name.drop_last())
    }
}

/// The extension of a basename: what follows the last `.`, unless that
/// dot starts the name (a leading-dot name has no extension).
pub open spec fn ext_of(name: Seq<char>) -> Option<Seq<char>> {
    match rfind_dot(name) {
        Some(i) => if i > 0 {
            Some(name.skip(i + 1))
        } else {
            None
        },
        None => None,
    }
}

/// ASCII lowercasing of one character; anything but `A`..`Z` is kept.
pub open spec fn lower_char(c: char) -> char {
    match c {
        'A' => 'a',
        'B' => 'b',
        'C' => 'c',
        'D' => 'd',
        'E' => 'e',
        'F' => 'f',
        'G' => 'g',
        'H' => 'h',
        'I' => 'i',
        'J' => 'j',
        'K' => 'k',
        'L' => 'l',
        'M' => 'm',
        'N' => 'n',
        'O' => 'o',
        'P' => 'p',
        'Q' => 'q',
        'R' => 'r',
        'S' => 's',
        'T' => 't',
        'U' => 'u',
        'V' => 'v',
        'W' => 'w',
        'X' => 'x',
        'Y' => 'y',
        'Z' => 'z',
        _ => c,
    }
}

/// ASCII lowercasing of a character sequence.
pub open spec fn lower_seq(s: Seq<char>) -> Seq<char> {
    s.map_values(|c: char| lower_char(c))
}

/// The icon for a file extension, already lowercased.
pub open spec fn ext_icon(e: Seq<char>) -> Seq<char> {
    if e == "rs"@ {
        seq!['\u{e7a8}']
    } else if e == "py"@ {
        seq!['\u{e606}']
    } else if e == "js"@ {
        seq!['\u{e74e}']
    } else if e == "ts"@ || e == "tsx"@ {
        seq!['\u{e628}']
    } else if e == "html"@ {
        seq!['\u{e736}']
    } else if e == "css"@ {
        seq!['\u{e749}']
    } else if e == "scss"@ || e == "sass"@ {
        seq!['\u{e74b}']
    } else if e == "json"@ {
        seq!['\u{e60b}']
    } else if e == "md"@ {
        seq!['\u{f48a}']
    } else if e == "toml"@ || e == "yaml"@ || e == "yml"@ {
        seq!['\u{e60b}']
    } else if e == "c"@ || e == "h"@ {
        seq!['\u{e61e}']
    } else if e == "cpp"@ || e == "hpp"@ || e == "cc"@ {
        seq!['\u{e61d}']
    } else if e == "go"@ {
        seq!['\u{e627}']
    } else if e == "java"@ || e == "jar"@ {
        seq!['\u{e738}']
    } else if e == "sh"@ || e == "bash"@ || e == "zsh"@ {
        seq!['\u{f489}']
    } else if e == "lock"@ {
        seq!['\u{f023}']
    } else if e == "zip"@ || e == "tar"@ || e == "gz"@ || e == "7z"@ {
        seq!['\u{f410}']
    } else if e == "png"@ || e == "jpg"@ || e == "jpeg"@ || e == "svg"@ || e == "ico"@ {
        seq!['\u{f1c5}']
    } else if e == "pdf"@ {
        seq!['\u{f1c1}']
    } else if e == "txt"@ {
        seq!['\u{f15c}']
    } else {
        seq!['\u{f15b}']
    }
}

/// The icon for an entry: directories get the folder icon; a few
/// reserved filenames come first; otherwise the extension decides,
/// case-insensitively; and a generic file icon is the fallback.
pub open spec fn icon_spec(name: Seq<char>, is_dir: bool) -> Seq<char> {
    if is_dir {
        seq!['\u{f07b}']
    } else if name == "Dockerfile"@ || name == "docker-compose.yml"@ {
        seq!['\u{f308}']
    } else if name == "Makefile"@ {
        seq!['\u{e60d}']
    } else if name == "Cargo.toml"@ || name == "Cargo.lock"@ {
        seq!['\u{e7a8}']
    } else if name == ".gitignore"@ || name == ".gitattributes"@ {
        seq!['\u{f1d3}']
    } else {
        match ext_of(name) {
            Some(e) => ext_icon(lower_seq(e)),
            None => seq!['\u{f15b}'],
        }
    }
}

/// ASCII-lowercases one character.
pub fn to_lower_char(c: char) -> (r: char)
    ensures
        r == lower_char(c),
{
    match c {
        'A' => 'a',
        'B' => 'b',
        'C' => 'c',
        'D' => 'd',
        'E' => 'e',
        'F' => 'f',
        'G' => 'g',
        'H' => 'h',
        'I' => 'i',
        'J' => 'j',
        'K' => 'k',
        'L' => 'l',
        'M' => 'm',
        'N' => 'n',
        'O' => 'o',
        'P' => 'p',
        'Q' => 'q',
        'R' => 'r',
        'S' => 's',
        'T' => 't',
        'U' => 'u',
        'V' => 'v',
        'W' => 'w',
        'X' => 'x',
        'Y' => 'y',
        'Z' => 'z',
        _ => c,
    }
}

/// Whether `a`, ASCII-lowercased, equals `b` (which is expected to be
/// lowercase already).
pub fn eq_lower(a: &str, b: &str) -> (r: bool)
    ensures
        r == (lower_seq(a@) =~= b@),
{
    let la = a.unicode_len();
    let lb = b.unicode_len();
    if la != lb {
        return false;
    }
    let mut i: usize = 0;
    while i < la
        invariant
            i <= la,
            la == a@.len(),
            la == b@.len(),
            forall|k: int| 0 <= k < i ==> lower_seq(a@)[k] == b@[k],
        decreases la - i,
    {
        if to_lower_char(a.get_char(i)) != b.get_char(i) {
            assert(lower_seq(a@)[i as int] != b@[i as int]);
            return false;
        }
        i = i + 1;
    }
    true
}

/// The extension of a basename, if it has one.
pub fn extension_of<'a>(name: &'a str) -> (r: Option<&'a str>)
    ensures
        match r {
            Some(e) => ext_of(name@) == Some(e@),
            None => ext_of(name@) is None,
        },
{
    let n = name.unicode_len();
    let mut i = n;
    proof {
        assert(name@.take(n as int) =~= name@);
    }
    while i > 0
        invariant
            i <= n,
            n == name@.len(),
            rfind_dot(name@) == rfind_dot(name@.take(i as int)),
        decreases i,
    {
        proof {
            assert(name@.take(i as int).last() == name@[i - 1]);
        }
        if name.get_char(i - 1) == '.' {
            if i - 1 > 0 {
                let e = name.substring_char(i, n);
                proof {
                    assert(name@.subrange(i as int, n as int) =~= name@.skip(i as int));
                }
                return Some(e);
            } else {
                return None;
            }
        }
        proof {
            assert(name@.take(i as int).drop_last() =~= name@.take(i - 1));
        }
        i = i - 1;
    }
    proof {
        assert(name@.take(0).len() == 0);
    }
    None
}

/// The icon glyph for an entry with the given basename.
pub fn get_icon(name: &str, is_dir: bool) -> (r: &'static str)
    ensures
        r@ == icon_spec(name@, is_dir),
{
    if is_dir {
        proof {
            reveal_strlit("\u{f07b}");
            assert("\u{f07b}"@ =~= seq!['\u{f07b}']);
        }
        return "\u{f07b}";
    }
    if str_eq(name, "Dockerfile") || str_eq(name, "docker-compose.yml") {
        proof {
            reveal_strlit("\u{f308}");
            assert("\u{f308}"@ =~= seq!['\u{f308}']);
        }
        return "\u{f308}";
    }
    if str_eq(name, "Makefile") {
        proof {
            reveal_strlit("\u{e60d}");
            assert("\u{e60d}"@ =~= seq!['\u{e60d}']);
        }
        return "\u{e60d}";
    }
    if str_eq(name, "Cargo.toml") || str_eq(name, "Cargo.lock") {
        proof {
            reveal_strlit("\u{e7a8}");
            assert("\u{e7a8}"@ =~= seq!['\u{e7a8}']);
        }
        return "\u{e7a8}";
    }
    if str_eq(name, ".gitignore") || str_eq(name, ".gitattributes") {
        proof {
            reveal_strlit("\u{f1d3}");
            assert("\u{f1d3}"@ =~= seq!['\u{f1d3}']);
        }
        return "\u{f1d3}";
    }
    let ext = extension_of(name);
    match ext {
        None => {
            proof {
                reveal_strlit("\u{f15b}");
                assert("\u{f15b}"@ =~= seq!['\u{f15b}']);
            }
            "\u{f15b}"
        },
        Some(e) => ext_icon_glyph(e),
    }
}

/// The icon glyph for a raw (not yet lowercased) extension.
fn ext_icon_glyph(e: &str) -> (r: &'static str)
    ensures
        r@ == ext_icon(lower_seq(e@)),
{
    if eq_lower(e, "rs") {
        proof {
            reveal_strlit("\u{e7a8}");
            assert("\u{e7a8}"@ =~= seq!['\u{e7a8}']);
        }
        "\u{e7a8}"
    } else if eq_lower(e, "py") {
        proof {
            reveal_strlit("\u{e606}");
            assert("\u{e606}"@ =~= seq!['\u{e606}']);
        }
        "\u{e606}"
    } else if eq_lower(e, "js") {
        proof {
            reveal_strlit("\u{e74e}");
            assert("\u{e74e}"@ =~= seq!['\u{e74e}']);
        }
        "\u{e74e}"
    } else if eq_lower(e, "ts") || eq_lower(e, "tsx") {
        proof {
            reveal_strlit("\u{e628}");
            assert("\u{e628}"@ =~= seq!['\u{e628}']);
        }
        "\u{e628}"
    } else if eq_lower(e, "html") {
        proof {
            reveal_strlit("\u{e736}");
            assert("\u{e736}"@ =~= seq!['\u{e736}']);
        }
        "\u{e736}"
    } else if eq_lower(e, "css") {
        proof {
            reveal_strlit("\u{e749}");
            assert("\u{e749}"@ =~= seq!['\u{e749}']);
        }
        "\u{e749}"
    } else if eq_lower(e, "scss") || eq_lower(e, "sass") {
        proof {
            reveal_strlit("\u{e74b}");
            assert("\u{e74b}"@ =~= seq!['\u{e74b}']);
        }
        "\u{e74b}"
    } else if eq_lower(e, "json") {
        proof {
            reveal_strlit("\u{e60b}");
            assert("\u{e60b}"@ =~= seq!['\u{e60b}']);
        }
        "\u{e60b}"
    } else if eq_lower(e, "md") {
        proof {
            reveal_strlit("\u{f48a}");
            assert("\u{f48a}"@ =~= seq!['\u{f48a}']);
        }
        "\u{f48a}"
    } else if eq_lower(e, "toml") || eq_lower(e, "yaml") || eq_lower(e, "yml") {
        proof {
            reveal_strlit("\u{e60b}");
            assert("\u{e60b}"@ =~= seq!['\u{e60b}']);
        }
        "\u{e60b}"
    } else if eq_lower(e, "c") || eq_lower(e, "h") {
        proof {
            reveal_strlit("\u{e61e}");
            assert("\u{e61e}"@ =~= seq!['\u{e61e}']);
        }
        "\u{e61e}"
    } else if eq_lower(e, "cpp") || eq_lower(e, "hpp") || eq_lower(e, "cc") {
        proof {
            reveal_strlit("\u{e61d}");
            assert("\u{e61d}"@ =~= seq!['\u{e61d}']);
        }
        "\u{e61d}"
    } else if eq_lower(e, "go") {
        proof {
            reveal_strlit("\u{e627}");
            assert("\u{e627}"@ =~= seq!['\u{e627}']);
        }
        "\u{e627}"
    } else if eq_lower(e, "java") || eq_lower(e, "jar") {
        proof {
            reveal_strlit("\u{e738}");
            assert("\u{e738}"@ =~= seq!['\u{e738}']);
        }
        "\u{e738}"
    } else if eq_lower(e, "sh") || eq_lower(e, "bash") || eq_lower(e, "zsh") {
        proof {
            reveal_strlit("\u{f489}");
            assert("\u{f489}"@ =~= seq!['\u{f489}']);
        }
        "\u{f489}"
    } else if eq_lower(e, "lock") {
        proof {
            reveal_strlit("\u{f023}");
            assert("\u{f023}"@ =~= seq!['\u{f023}']);
        }
        "\u{f023}"
    } else if eq_lower(e, "zip") || eq_lower(e, "tar") || eq_lower(e, "gz") || eq_lower(e, "7z") {
        proof {
            reveal_strlit("\u{f410}");
            assert("\u{f410}"@ =~= seq!['\u{f410}']);
        }
        "\u{f410}"
    } else if eq_lower(e, "png") || eq_lower(e, "jpg") || eq_lower(e, "jpeg") || eq_lower(e, "svg")
        || eq_lower(e, "ico") {
        proof {
            reveal_strlit("\u{f1c5}");
            assert("\u{f1c5}"@ =~= seq!['\u{f1c5}']);
        }
        "\u{f1c5}"
    } else if eq_lower(e, "pdf") {
        proof {
            reveal_strlit("\u{f1c1}");
            assert("\u{f1c1}"@ =~= seq!['\u{f1c1}']);
        }
        "\u{f1c1}"
    } else if eq_lower(e, "txt") {
        proof {
            reveal_strlit("\u{f15c}");
            assert("\u{f15c}"@ =~= seq!['\u{f15c}']);
        }
        "\u{f15c}"
    } else {
        proof {
            reveal_strlit("\u{f15b}");
            assert("\u{f15b}"@ =~= seq!['\u{f15b}']);
        }
        "\u{f15b}"
    }
}

} // verus!
