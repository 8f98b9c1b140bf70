//! The template helper that turns a bare asset name into its public URL,
//! routed by the file's extension.

use vstd::prelude::*;

use crate::paths::ext_of;
use crate::paths::get_ext;
use crate::plan::file_name;
use crate::plan::file_name_spec;

verus! {

/// ASCII lowercase folding of one character.
pub open spec fn lower_char(c: char) -> char {
    if c == 'A' { 'a' } else if c == 'B' { 'b' } else if c == 'C' { 'c' }
    else if c == 'D' { 'd' } else if c == 'E' { 'e' } else if c == 'F' { 'f' }
    else if c == 'G' { 'g' } else if c == 'H' { 'h' } else if c == 'I' { 'i' }
    else if c == 'J' { 'j' } else if c == 'K' { 'k' } else if c == 'L' { 'l' }
    else if c == 'M' { 'm' } else if c == 'N' { 'n' } else if c == 'O' { 'o' }
    else if c == 'P' { 'p' } else if c == 'Q' { 'q' } else if c == 'R' { 'r' }
    else if c == 'S' { 's' } else if c == 'T' { 't' } else if c == 'U' { 'u' }
    else if c == 'V' { 'v' } else if c == 'W' { 'w' } else if c == 'X' { 'x' }
    else if c == 'Y' { 'y' } else if c == 'Z' { 'z' } else { c }
}

/// ASCII lowercase folding of a string.
pub open spec fn lower_seq(s: Seq<char>) -> Seq<char> {
    s.map_values(|c: char| lower_char(c))
}

/// Folds a string to ASCII lowercase.
pub fn ascii_lower(s: &str) -> (r: String)
    ensures
        r@ == lower_seq(s@),
{
    let n: usize = s.unicode_len();
    let mut r = String::new();
    let mut i: usize = 0;
    proof {
        assert(r@ =~= lower_seq(s@.subrange(0, 0)));
    }
    while i < n
        invariant
            0 <= i <= n,
            n == s@.len(),
            r@ == lower_seq(s@.subrange(0, i as int)),
        decreases n - i,
    {
        let c = s.get_char(i);
        match c {
            'A' => r.append("a"), 'B' => r.append("b"), 'C' => r.append("c"),
            'D' => r.append("d"), 'E' => r.append("e"), 'F' => r.append("f"),
            'G' => r.append("g"), 'H' => r.append("h"), 'I' => r.append("i"),
            'J' => r.append("j"), 'K' => r.append("k"), 'L' => r.append("l"),
            'M' => r.append("m"), 'N' => r.append("n"), 'O' => r.append("o"),
            'P' => r.append("p"), 'Q' => r.append("q"), 'R' => r.append("r"),
            'S' => r.append("s"), 'T' => r.append("t"), 'U' => r.append("u"),
            'V' => r.append("v"), 'W' => r.append("w"), 'X' => r.append("x"),
            'Y' => r.append("y"), 'Z' => r.append("z"),
            _ => {
                let one = s.substring_char(i, i + 1);
                r.append(one);
            },
        }
        proof {
            reveal_strlit("a"); reveal_strlit("b"); reveal_strlit("c");
            reveal_strlit("d"); reveal_strlit("e"); reveal_strlit("f");
            reveal_strlit("g"); reveal_strlit("h"); reveal_strlit("i");
            reveal_strlit("j"); reveal_strlit("k"); reveal_strlit("l");
            reveal_strlit("m"); reveal_strlit("n"); reveal_strlit("o");
            reveal_strlit("p"); reveal_strlit("q"); reveal_strlit("r");
            reveal_strlit("s"); reveal_strlit("t"); reveal_strlit("u");
            reveal_strlit("v"); reveal_strlit("w"); reveal_strlit("x");
            reveal_strlit("y"); reveal_strlit("z");
            assert(s@.subrange(i as int, (i + 1) as int) =~= seq![s@[i as int]]);
            assert(r@ =~= lower_seq(s@.subrange(0, (i + 1) as int)));
        }
        i += 1;
    }
    proof {
        assert(s@.subrange(0, n as int) =~= s@);
    }
    r
}

/// Whether a lowered extension names an image kind served from the shared
/// image directory.
pub open spec fn is_img_ext(e: Seq<char>) -> bool {
    ||| e == seq!['p', 'n', 'g']
    ||| e == seq!['j', 'p', 'e', 'g']
    ||| e == seq!['j', 'p', 'g']
    ||| e == seq!['s', 'v', 'g']
    ||| e == seq!['g', 'i', 'f']
}

/// The public URL for an asset name: image extensions route to the image
/// directory, any other extension routes to a directory named after its
/// lowered extension, and an extension-less name sits at the asset root.
pub open spec fn asset_url_spec(v: Seq<char>) -> Seq<char> {
    match ext_of(file_name_spec(v)) {
        Option::Some(e) => {
            if is_img_ext(lower_seq(e)) {
                seq!['/', 'a', 's', 's', 'e', 't', 's', '/', 'i', 'm', 'g', '/'] + v
            } else {
                seq!['/', 'a', 's', 's', 'e', 't', 's', '/'] + lower_seq(e) + seq!['/'] + v
            }
        },
        Option::None => seq!['/', 'a', 's', 's', 'e', 't', 's', '/'] + v,
    }
}

/// Checks a lowered extension against each image kind.
fn is_img(e: &String) -> (r: bool)
    ensures
        r == is_img_ext(e@),
{
    proof {
        reveal_strlit("png");
        reveal_strlit("jpeg");
        reveal_strlit("jpg");
        reveal_strlit("svg");
        reveal_strlit("gif");
        assert("png"@ =~= seq!['p', 'n', 'g']);
        assert("jpeg"@ =~= seq!['j', 'p', 'e', 'g']);
        assert("jpg"@ =~= seq!['j', 'p', 'g']);
        assert("svg"@ =~= seq!['s', 'v', 'g']);
        assert("gif"@ =~= seq!['g', 'i', 'f']);
    }
    let png: String = "png".to_owned();
    let jpeg: String = "jpeg".to_owned();
    let jpg: String = "jpg".to_owned();
    let svg: String = "svg".to_owned();
    let gif: String = "gif".to_owned();
    *e == png || *e == jpeg || *e == jpg || *e == svg || *e == gif
}

/// Maps an asset name written in a template to the URL it is served from.
pub fn asset(value: &str) -> (r: String)
    ensures
        r@ == asset_url_spec(value@),
{
    let name = file_name(value);
    match get_ext(name.as_str()) {
        Some(e) => {
            let low = ascii_lower(e.as_str());
            if is_img(&low) {
                let mut r = "/assets/img/".to_owned();
                r.append(value);
                proof {
                    reveal_strlit("/assets/img/");
                    assert(r@ =~= asset_url_spec(value@));
                }
                return r;
            }
            let mut r = "/assets/".to_owned();
            r.append(low.as_str());
            r.append("/");
            r.append(value);
            proof {
                reveal_strlit("/assets/");
                reveal_strlit("/");
                assert(r@ =~= asset_url_spec(value@));
            }
            r
        },
        None => {
            let mut r = "/assets/".to_owned();
            r.append(value);
            proof {
                reveal_strlit("/assets/");
                assert(r@ =~= asset_url_spec(value@));
            }
            r
        },
    }
}

} // verus!
