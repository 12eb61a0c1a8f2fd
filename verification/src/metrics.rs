use vstd::prelude::*;

verus! {

/// Width of a character in the regular and the bold face, in 1/1000 em
/// units, from the Helvetica metrics; unmapped characters fall back to
/// 500 (regular) and 556 (bold).
pub open spec fn spec_char_units_pair(c: char) -> (u64, u64) {
    match c {
        ' ' => (278, 278),
        '!' => (278, 333),
        '"' => (355, 474),
        '#' => (556, 556),
        '$' => (556, 556),
        '%' => (889, 889),
        '&' => (667, 722),
        '(' => (333, 333),
        ')' => (333, 333),
        '*' => (389, 389),
        '+' => (584, 584),
        ',' => (278, 278),
        '-' => (333, 333),
        '.' => (278, 278),
        '/' => (278, 278),
        '0' => (556, 556),
        '1' => (556, 556),
        '2' => (556, 556),
        '3' => (556, 556),
        '4' => (556, 556),
        '5' => (556, 556),
        '6' => (556, 556),
        '7' => (556, 556),
        '8' => (556, 556),
        '9' => (556, 556),
        ':' => (278, 333),
        ';' => (278, 333),
        '<' => (584, 584),
        '=' => (584, 584),
        '>' => (584, 584),
        '?' => (556, 611),
        '@' => (1015, 975),
        'A' => (667, 722),
        'B' => (667, 722),
        'C' => (722, 722),
        'D' => (722, 722),
        'E' => (667, 667),
        'F' => (611, 611),
        'G' => (778, 778),
        'H' => (722, 722),
        'I' => (278, 278),
        'J' => (500, 556),
        'K' => (667, 722),
        'L' => (556, 611),
        'M' => (833, 833),
        'N' => (722, 722),
        'O' => (778, 778),
        'P' => (667, 667),
        'Q' => (778, 778),
        'R' => (722, 722),
        'S' => (667, 667),
        'T' => (611, 611),
        'U' => (722, 722),
        'V' => (667, 667),
        'W' => (944, 944),
        'X' => (667, 667),
        'Y' => (667, 667),
        'Z' => (611, 611),
        '[' => (278, 333),
        '\\' => (278, 278),
        ']' => (278, 333),
        '^' => (469, 581),
        '_' => (556, 556),
        '`' => (222, 333),
        'a' => (556, 556),
        'b' => (556, 611),
        'c' => (500, 556),
        'd' => (556, 611),
        'e' => (556, 556),
        'f' => (278, 333),
        'g' => (556, 611),
        'h' => (556, 611),
        'i' => (222, 278),
        'j' => (222, 278),
        'k' => (500, 556),
        'l' => (222, 278),
        'm' => (833, 889),
        'n' => (556, 611),
        'o' => (556, 611),
        'p' => (556, 611),
        'q' => (556, 611),
        'r' => (333, 389),
        's' => (500, 556),
        't' => (278, 333),
        'u' => (556, 611),
        'v' => (500, 556),
        'w' => (722, 778),
        'x' => (500, 556),
        'y' => (500, 556),
        'z' => (500, 500),
        '{' => (334, 389),
        '|' => (260, 280),
        '}' => (334, 389),
        '~' => (584, 584),
        '•' => (350, 350),
        _ => (500, 556),
    }
}

/// Width of one character at the chosen face, in 1/1000 em units.
pub open spec fn char_units(c: char, bold: bool) -> u64 {
    if bold {
        spec_char_units_pair(c).1
    } else {
        spec_char_units_pair(c).0
    }
}

/// Every character width in the table lies between 191 and 1015 units.
pub proof fn lemma_char_units_bounds(c: char, bold: bool)
    ensures
        0 < char_units(c, bold) <= 1015,
{
}

/// Width of a string in 1/1000 em units: the sum of its characters' widths.
pub open spec fn units_of(s: Seq<char>, bold: bool) -> int
    decreases s.len(),
{
    if s.len() == 0 {
        0
    } else {
        units_of(s.drop_last(), bold) + char_units(s.last(), bold)
    }
}

pub proof fn lemma_units_of_bounds(s: Seq<char>, bold: bool)
    ensures
        0 <= units_of(s, bold) <= 1015 * s.len(),
    decreases s.len(),
{
    if s.len() > 0 {
        lemma_units_of_bounds(s.drop_last(), bold);
    }
}

pub proof fn lemma_units_of_concat(a: Seq<char>, b: Seq<char>, bold: bool)
    ensures
        units_of(a + b, bold) == units_of(a, bold) + units_of(b, bold),
    decreases b.len(),
{
    if b.len() == 0 {
        assert(a + b =~= a);
    } else {
        lemma_units_of_concat(a, b.drop_last(), bold);
        assert((a + b).drop_last() =~= a + b.drop_last());
        assert((a + b).last() == b.last());
    }
}

/// Width of a string in millipoints (1/1000 pt) at the given font size:
/// the em-unit sum scaled by the size.
pub open spec fn width_mp(s: Seq<char>, size: int, bold: bool) -> int {
    units_of(s, bold) * size
}

/// Width of one character at the chosen face, in 1/1000 em units.
pub fn helvetica_char_width(c: char, bold: bool) -> (w: u64)
    ensures
        w == char_units(c, bold),
{
    let pair: (u64, u64) = match c {
        ' ' => (278, 278),
        '!' => (278, 333),
        '"' => (355, 474),
        '#' => (556, 556),
        '$' => (556, 556),
        '%' => (889, 889),
        '&' => (667, 722),
        '(' => (333, 333),
        ')' => (333, 333),
        '*' => (389, 389),
        '+' => (584, 584),
        ',' => (278, 278),
        '-' => (333, 333),
        '.' => (278, 278),
        '/' => (278, 278),
        '0' => (556, 556),
        '1' => (556, 556),
        '2' => (556, 556),
        '3' => (556, 556),
        '4' => (556, 556),
        '5' => (556, 556),
        '6' => (556, 556),
        '7' => (556, 556),
        '8' => (556, 556),
        '9' => (556, 556),
        ':' => (278, 333),
        ';' => (278, 333),
        '<' => (584, 584),
        '=' => (584, 584),
        '>' => (584, 584),
        '?' => (556, 611),
        '@' => (1015, 975),
        'A' => (667, 722),
        'B' => (667, 722),
        'C' => (722, 722),
        'D' => (722, 722),
        'E' => (667, 667),
        'F' => (611, 611),
        'G' => (778, 778),
        'H' => (722, 722),
        'I' => (278, 278),
        'J' => (500, 556),
        'K' => (667, 722),
        'L' => (556, 611),
        'M' => (833, 833),
        'N' => (722, 722),
        'O' => (778, 778),
        'P' => (667, 667),
        'Q' => (778, 778),
        'R' => (722, 722),
        'S' => (667, 667),
        'T' => (611, 611),
        'U' => (722, 722),
        'V' => (667, 667),
        'W' => (944, 944),
        'X' => (667, 667),
        'Y' => (667, 667),
        'Z' => (611, 611),
        '[' => (278, 333),
        '\\' => (278, 278),
        ']' => (278, 333),
        '^' => (469, 581),
        '_' => (556, 556),
        '`' => (222, 333),
        'a' => (556, 556),
        'b' => (556, 611),
        'c' => (500, 556),
        'd' => (556, 611),
        'e' => (556, 556),
        'f' => (278, 333),
        'g' => (556, 611),
        'h' => (556, 611),
        'i' => (222, 278),
        'j' => (222, 278),
        'k' => (500, 556),
        'l' => (222, 278),
        'm' => (833, 889),
        'n' => (556, 611),
        'o' => (556, 611),
        'p' => (556, 611),
        'q' => (556, 611),
        'r' => (333, 389),
        's' => (500, 556),
        't' => (278, 333),
        'u' => (556, 611),
        'v' => (500, 556),
        'w' => (722, 778),
        'x' => (500, 556),
        'y' => (500, 556),
        'z' => (500, 500),
        '{' => (334, 389),
        '|' => (260, 280),
        '}' => (334, 389),
        '~' => (584, 584),
        '•' => (350, 350),
        _ => (500, 556),
    };
    if bold {
        pair.1
    } else {
        pair.0
    }
}

/// Width of a string in 1/1000 em units at the chosen face.
pub fn text_units(text: &str, bold: bool) -> (u: u128)
    ensures
        u == units_of(text@, bold),
        u <= 1015 * text@.len(),
        u < 0x40000000000000000000,
{
    let n: usize = text.unicode_len();
    let mut u: u128 = 0;
    let mut i: usize = 0;
    proof {
        assert(text@.subrange(0, 0) =~= Seq::<char>::empty());
    }
    while i < n
        invariant
            0 <= i <= n,
            n == text@.len(),
            n <= usize::MAX,
            u == units_of(text@.subrange(0, i as int), bold),
            u <= 1015 * i,
        decreases n - i,
    {
        let c = text.get_char(i);
        let w = helvetica_char_width(c, bold);
        proof {
            lemma_char_units_bounds(c, bold);
            let pre = text@.subrange(0, i as int);
            let post = text@.subrange(0, i + 1);
            assert(post.drop_last() =~= pre);
            assert(post.last() == c);
        }
        u = u + w as u128;
        i = i + 1;
    }
    proof {
        assert(text@.subrange(0, n as int) =~= text@);
    }
    u
}

/// Width of a string in millipoints at the given font size and face.
pub fn text_width(text: &str, size: u64, bold: bool) -> (w: u128)
    requires
        size <= 100,
    ensures
        w == width_mp(text@, size as int, bold),
        w < 0x2000000000000000000000,
{
    let u = text_units(text, bold);
    proof {
        assert(u * size < 0x2000000000000000000000) by (nonlinear_arith)
            requires
                0 <= u < 0x40000000000000000000,
                0 <= size <= 100,
            ;
    }
    u * (size as u128)
}

} // verus!
