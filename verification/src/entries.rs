use vstd::prelude::*;

use crate::doc::{is_ws_char, ws_char};
use crate::numfmt::{dec_of, u64_to_dec};

verus! {

/// The Roman numeral of a calendar month, a question mark outside 1–12.
pub open spec fn roman_of(month: u32) -> Seq<char> {
    if month == 1 {
        "I"@
    } else if month == 2 {
        "II"@
    } else if month == 3 {
        "III"@
    } else if month == 4 {
        "IV"@
    } else if month == 5 {
        "V"@
    } else if month == 6 {
        "VI"@
    } else if month == 7 {
        "VII"@
    } else if month == 8 {
        "VIII"@
    } else if month == 9 {
        "IX"@
    } else if month == 10 {
        "X"@
    } else if month == 11 {
        "XI"@
    } else if month == 12 {
        "XII"@
    } else {
        "?"@
    }
}

/// Converts a month number to its Roman numeral; out-of-range months
/// give a question mark.
pub fn month_to_roman(month: u32) -> (r: &'static str)
    ensures
        r@ == roman_of(month),
{
    match month {
        1 => "I",
        2 => "II",
        3 => "III",
        4 => "IV",
        5 => "V",
        6 => "VI",
        7 => "VII",
        8 => "VIII",
        9 => "IX",
        10 => "X",
        11 => "XI",
        12 => "XII",
        _ => "?",
    }
}

/// What `str::to_lowercase` returns: a function of the characters
/// alone; its exact content is not modelled, beyond that an empty
/// string stays empty.
pub uninterp spec fn lower_of(s: Seq<char>) -> Seq<char>;

/// Relies on str::to_lowercase: the Unicode-aware lowercase form of the
/// string, depending on its characters alone.
#[verifier::external_body]
fn to_lowercase_str(s: &str) -> (r: String)
    ensures
        r@ == lower_of(s@),
        s@.len() == 0 ==> r@.len() == 0,
{
    s.to_lowercase()
}

/// What `char::is_alphanumeric` returns: whether the character is in
/// one of the Unicode alphabetic or numeric categories.
pub uninterp spec fn is_alnum(c: char) -> bool;

/// Relies on char::is_alphanumeric, a classification by the character
/// alone.
#[verifier::external_body]
fn alnum_char(c: char) -> (r: bool)
    ensures
        r == is_alnum(c),
{
    c.is_alphanumeric()
}

/// The raw slug of a title: whitespace becomes a dash, and only
/// alphanumeric characters and dashes survive.
pub open spec fn slug_of(s: Seq<char>) -> Seq<char>
    decreases s.len(),
{
    if s.len() == 0 {
        Seq::empty()
    } else {
        let c = if is_ws_char(s.last()) {
            '-'
        } else {
            s.last()
        };
        slug_of(s.drop_last()) + (if is_alnum(c) || c == '-' {
            seq![c]
        } else {
            Seq::<char>::empty()
        })
    }
}

pub open spec fn dash_flush(out: Seq<char>, run: Seq<char>) -> Seq<char> {
    if run.len() == 0 {
        out
    } else if out.len() == 0 {
        run
    } else {
        out + seq!['-'] + run
    }
}

/// Joining the dash-separated parts of a slug with single dashes,
/// dropping empty parts: consecutive, leading and trailing dashes
/// collapse away.
pub open spec fn dash_join(s: Seq<char>, out: Seq<char>, run: Seq<char>) -> Seq<char>
    decreases s.len(),
{
    if s.len() == 0 {
        dash_flush(out, run)
    } else if s[0] == '-' {
        dash_join(s.drop_first(), dash_flush(out, run), Seq::empty())
    } else {
        dash_join(s.drop_first(), out, run.push(s[0]))
    }
}

/// The file name of a numbered entry: the number, a dash, the
/// normalised slug of the lowercased title, and the markdown extension.
pub open spec fn entry_filename_of(number: u32, title: Seq<char>) -> Seq<char> {
    dec_of(number as int) + "-"@ + dash_join(slug_of(lower_of(title)), Seq::empty(),
        Seq::empty()) + ".md"@
}

/// Generates the file name for a new entry from its number and title.
pub fn generate_entry_filename(number: u32, title: &str) -> (r: String)
    ensures
        r@ == entry_filename_of(number, title@),
{
    let lowered = to_lowercase_str(title);
    let ls = lowered.as_str();
    let n = ls.unicode_len();

    // map whitespace to dashes and keep only alphanumerics and dashes
    let mut slug = String::new();
    let mut i: usize = 0;
    proof {
        assert(ls@.subrange(0, 0) =~= Seq::<char>::empty());
    }
    while i < n
        invariant
            0 <= i <= n,
            n == ls@.len(),
            slug@ == slug_of(ls@.subrange(0, i as int)),
        decreases n - i,
    {
        let c0 = ls.get_char(i);
        let c = if ws_char(c0) {
            '-'
        } else {
            c0
        };
        proof {
            let pre = ls@.subrange(0, i as int);
            let post = ls@.subrange(0, i + 1);
            assert(post.drop_last() =~= pre);
            assert(post.last() == c0);
        }
        if alnum_char(c) || c == '-' {
            crate::compose::push_char(&mut slug, c);
        } else {
            proof {
                assert(slug@ + Seq::<char>::empty() =~= slug@);
            }
        }
        i = i + 1;
    }
    proof {
        assert(ls@.subrange(0, n as int) =~= ls@);
    }

    // collapse runs of dashes and trim them from the ends
    let ghost sv = slug@;
    let ss = slug.as_str();
    let m = ss.unicode_len();
    let mut out = String::new();
    let mut run_start: usize = 0;
    let mut j: usize = 0;
    proof {
        assert(sv.skip(0) =~= sv);
        assert(sv.subrange(0, 0) =~= Seq::<char>::empty());
    }
    while j < m
        invariant
            0 <= run_start <= j <= m,
            m == sv.len(),
            sv == ss@,
            dash_join(sv.skip(j as int), out@, sv.subrange(run_start as int, j as int))
                == dash_join(sv, Seq::empty(), Seq::empty()),
        decreases m - j,
    {
        let c = ss.get_char(j);
        proof {
            assert(sv.skip(j as int)[0] == c);
            assert(sv.skip(j as int).drop_first() =~= sv.skip(j + 1));
        }
        if c == '-' {
            let ghost out_old = out@;
            let ghost run = sv.subrange(run_start as int, j as int);
            if run_start < j {
                let part = ss.substring_char(run_start, j);
                if out.as_str().unicode_len() > 0 {
                    out.append("-");
                    proof {
                        reveal_strlit("-");
                        assert("-"@ =~= seq!['-']);
                    }
                }
                out.append(part);
            }
            proof {
                assert(out@ =~= dash_flush(out_old, run));
                assert(sv.subrange(j + 1, j + 1) =~= Seq::<char>::empty());
            }
            run_start = j + 1;
        } else {
            proof {
                assert(sv.subrange(run_start as int, j as int).push(c) =~= sv.subrange(
                    run_start as int, j + 1));
            }
        }
        j = j + 1;
    }
    let ghost out_old = out@;
    let ghost run = sv.subrange(run_start as int, m as int);
    if run_start < m {
        let part = ss.substring_char(run_start, m);
        if out.as_str().unicode_len() > 0 {
            out.append("-");
            proof {
                reveal_strlit("-");
                assert("-"@ =~= seq!['-']);
            }
        }
        out.append(part);
    }
    proof {
        assert(out@ =~= dash_flush(out_old, run));
        assert(sv.skip(m as int) =~= Seq::<char>::empty());
        assert(out@ == dash_join(sv, Seq::empty(), Seq::empty()));
    }

    let mut r = u64_to_dec(number as u64);
    r.append("-");
    r.append(out.as_str());
    r.append(".md");
    proof {
        reveal_strlit("-");
        assert("-"@ =~= seq!['-']);
        assert(r@ =~= entry_filename_of(number, title@));
    }
    r
}

/// One entry recorded as locked.
pub struct LockedEntry {
    pub number: u32,
    pub shadow: bool,
    pub created: String,
}

/// Whether the lockfile records the given entry as locked.
pub open spec fn entry_locked(s: Seq<LockedEntry>, number: u32, shadow: bool) -> bool {
    exists|j: int| 0 <= j < s.len() && (#[trigger] s[j]).number == number && s[j].shadow == shadow
}

/// Checks whether an entry is recorded as locked.
pub fn is_entry_locked(entries: &Vec<LockedEntry>, entry_number: u32, shadow: bool) -> (r: bool)
    ensures
        r == entry_locked(entries@, entry_number, shadow),
{
    let n = entries.len();
    let mut i: usize = 0;
    while i < n
        invariant
            0 <= i <= n,
            n == entries@.len(),
            forall|j: int|
                0 <= j < i ==> !((#[trigger] entries@[j]).number == entry_number
                    && entries@[j].shadow == shadow),
        decreases n - i,
    {
        if entries[i].number == entry_number && entries[i].shadow == shadow {
            return true;
        }
        i = i + 1;
    }
    false
}

} // verus!
