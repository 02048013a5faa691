//! Names of the files that the cells of an image are written to.

use vstd::prelude::*;

verus! {

/// The decimal digit `d` as a character.
pub open spec fn digit_char(d: nat) -> char {
    if d == 0 {
        '0'
    } else if d == 1 {
        '1'
    } else if d == 2 {
        '2'
    } else if d == 3 {
        '3'
    } else if d == 4 {
        '4'
    } else if d == 5 {
        '5'
    } else if d == 6 {
        '6'
    } else if d == 7 {
        '7'
    } else if d == 8 {
        '8'
    } else {
        '9'
    }
}

/// `n` written in decimal, without leading zeros.
pub open spec fn decimal(n: nat) -> Seq<char>
    decreases n,
{
    if n < 10 {
        seq![digit_char(n)]
    } else {
        decimal(n / 10).push(digit_char(n % 10))
    }
}

/// The file name of the cell in row `row` and column `col` (both counted from
/// 0) of the image whose file stem is `stem`: `{stem}_{row+1}_{col+1}.jpg`.
pub open spec fn cell_name(stem: Seq<char>, row: nat, col: nat) -> Seq<char> {
    stem + seq!['_'] + decimal(row + 1) + seq!['_'] + decimal(col + 1) + seq!['.', 'j', 'p', 'g']
}

/// The stem used for a source file whose name has none.
pub open spec fn default_stem() -> Seq<char> {
    seq!['i', 'm', 'a', 'g', 'e']
}

fn digit_str(d: usize) -> (r: &'static str)
    requires
        d < 10,
    ensures
        r@ == seq![digit_char(d as nat)],
{
    proof {
        reveal_strlit("0");
        reveal_strlit("1");
        reveal_strlit("2");
        reveal_strlit("3");
        reveal_strlit("4");
        reveal_strlit("5");
        reveal_strlit("6");
        reveal_strlit("7");
        reveal_strlit("8");
        reveal_strlit("9");
    }
    match d {
        0 => "0",
        1 => "1",
        2 => "2",
        3 => "3",
        4 => "4",
        5 => "5",
        6 => "6",
        7 => "7",
        8 => "8",
        _ => "9",
    }
}

/// Appends `n` in decimal to `out`.
fn push_decimal(out: &mut String, n: usize)
    ensures
        final(out)@ == old(out)@ + decimal(n as nat),
    decreases n,
{
    if n < 10 {
        out.append(digit_str(n));
    } else {
        push_decimal(out, n / 10);
        out.append(digit_str(n % 10));
        proof {
            assert(decimal(n as nat) == decimal((n / 10) as nat).push(digit_char((n % 10) as nat)));
        }
    }
}

/// `n` written in decimal.
pub fn decimal_string(n: usize) -> (r: String)
    ensures
        r@ == decimal(n as nat),
{
    let mut out = String::new();
    push_decimal(&mut out, n);
    proof {
        assert(out@ =~= decimal(n as nat));
    }
    out
}

/// The file name `{stem}_{row+1}_{col+1}.jpg` of the cell in row `row` and
/// column `col` (both counted from 0).
pub fn cell_file_name(stem: &str, row: usize, col: usize) -> (r: String)
    requires
        row < usize::MAX,
        col < usize::MAX,
    ensures
        r@ == cell_name(stem@, row as nat, col as nat),
{
    let mut out = String::from_str(stem);
    out.append("_");
    push_decimal(&mut out, row + 1);
    out.append("_");
    push_decimal(&mut out, col + 1);
    out.append(".jpg");
    proof {
        reveal_strlit("_");
        reveal_strlit(".jpg");
        assert(out@ =~= cell_name(stem@, row as nat, col as nat));
    }
    out
}

/// The stem that names a source file's cells: its own stem, or `image` when it
/// has none that is valid text.
pub fn stem_or_default<'a>(stem: Option<&'a str>) -> (r: &'a str)
    ensures
        stem is Some ==> r@ == stem->Some_0@,
        stem is None ==> r@ == default_stem(),
{
    proof {
        reveal_strlit("image");
    }
    match stem {
        Some(s) => s,
        None => "image",
    }
}

} // verus!
