//! What one frame shows: each buffer line behind a fixed-width line-number
//! gutter, and where on the screen the cursor sits. The terminal itself is
//! driven outside the library; this module only computes the characters and
//! coordinates it is given.

use vstd::prelude::*;
use crate::editor::min2;

verus! {

/// The width of the line-number gutter: four digit cells, a space, a bar and
/// a space.
pub const GUTTER_WIDTH: u16 = 7;

/// The decimal digit `d` as a character.
pub open spec fn digit_char(d: int) -> char {
    if d == 0 {
        '0'
    } else if d == 1 {
        '1'
    } else if d == 2 {
        '2'
    } else if d == 3 {
        '3'
    } else if d == 4 {
        '4'
    } else if d == 5 {
        '5'
    } else if d == 6 {
        '6'
    } else if d == 7 {
        '7'
    } else if d == 8 {
        '8'
    } else {
        '9'
    }
}

/// The decimal digits of `n`, most significant first, with no leading zeros.
pub open spec fn dec_digits(n: nat) -> Seq<char>
    decreases n,
{
    if n < 10 {
        seq![digit_char(n as int)]
    } else {
        dec_digits(n / 10).push(digit_char((n % 10) as int))
    }
}

/// The decimal digits of `n`, padded on the left with spaces to at least four
/// cells.
pub open spec fn padded_number(n: nat) -> Seq<char> {
    let d = dec_digits(n);
    if d.len() >= 4 {
        d
    } else {
        Seq::new((4 - d.len()) as nat, |i: int| ' ') + d
    }
}

/// What one buffer line shows on screen: its one-based number right-aligned
/// in the gutter, a separator, and the line's characters.
pub open spec fn rendered_line(index: nat, line: Seq<char>) -> Seq<char> {
    padded_number(index + 1) + seq![' ', '|', ' '] + line
}

/// The decimal digit `d` as a character.
fn digit_char_exec(d: usize) -> (c: char)
    requires
        d < 10,
    ensures
        c == digit_char(d as int),
{
    match d {
        0 => '0',
        1 => '1',
        2 => '2',
        3 => '3',
        4 => '4',
        5 => '5',
        6 => '6',
        7 => '7',
        8 => '8',
        _ => '9',
    }
}

/// The decimal digits of `n`, most significant first.
fn digits_vec(n: usize) -> (r: Vec<char>)
    ensures
        r@ == dec_digits(n as nat),
    decreases n,
{
    if n < 10 {
        let mut v: Vec<char> = Vec::new();
        v.push(digit_char_exec(n));
        proof {
            assert(v@ =~= dec_digits(n as nat));
        }
        v
    } else {
        let mut v = digits_vec(n / 10);
        v.push(digit_char_exec(n % 10));
        proof {
            assert(v@ =~= dec_digits(n as nat));
        }
        v
    }
}

/// One buffer line as it is drawn: the one-based line number right-aligned in
/// a four-cell gutter, a separator, then the line itself.
pub fn render_line(index: usize, line: &Vec<char>) -> (r: Vec<char>)
    requires
        index < usize::MAX,
    ensures
        r@ == rendered_line(index as nat, line@),
{
    let d = digits_vec(index + 1);
    let mut r: Vec<char> = Vec::new();
    let mut pad: usize = d.len();
    proof {
        assert(r@ =~= Seq::new(0, |i: int| ' '));
    }
    while pad < 4
        invariant
            d.len() <= pad,
            pad <= 4 || pad == d.len(),
            r@ == Seq::new((pad - d.len()) as nat, |i: int| ' '),
        decreases 4 - pad,
    {
        r.push(' ');
        pad += 1;
        proof {
            assert(r@ =~= Seq::new((pad - d.len()) as nat, |i: int| ' '));
        }
    }
    let mut k: usize = 0;
    let ghost base = r@;
    proof {
        assert(r@ =~= base + d@.take(0));
    }
    while k < d.len()
        invariant
            k <= d.len(),
            r@ == base + d@.take(k as int),
        decreases d.len() - k,
    {
        r.push(d[k]);
        k += 1;
        proof {
            assert(d@.take(k as int) =~= d@.take(k as int - 1).push(d@[k as int - 1]));
            assert(r@ =~= base + d@.take(k as int));
        }
    }
    proof {
        assert(d@.take(d@.len() as int) =~= d@);
        assert(r@ =~= padded_number(index as nat + 1));
    }
    r.push(' ');
    r.push('|');
    r.push(' ');
    let mut j: usize = 0;
    let ghost head = r@;
    proof {
        assert(r@ =~= head + line@.take(0));
    }
    while j < line.len()
        invariant
            j <= line.len(),
            r@ == head + line@.take(j as int),
        decreases line.len() - j,
    {
        r.push(line[j]);
        j += 1;
        proof {
            assert(line@.take(j as int) =~= line@.take(j as int - 1).push(line@[j as int - 1]));
            assert(r@ =~= head + line@.take(j as int));
        }
    }
    proof {
        assert(line@.take(line@.len() as int) =~= line@);
        assert(r@ =~= rendered_line(index as nat, line@));
    }
    r
}

/// Where the terminal cursor sits for buffer position `(x, y)`: the column is
/// shifted right past the gutter. Both coordinates saturate at the largest
/// cell the terminal addresses.
pub fn cursor_screen_pos(x: usize, y: usize) -> (p: (u16, u16))
    ensures
        p.0 == min2(x as int + GUTTER_WIDTH as int, u16::MAX as int),
        p.1 == min2(y as int, u16::MAX as int),
{
    let col: u16 = if x >= 65535 - 7 {
        65535
    } else {
        (x as u16) + 7
    };
    let row: u16 = if y >= 65535 {
        65535
    } else {
        y as u16
    };
    (col, row)
}

/// The row just under the drawn buffer, where a status message is shown.
/// Saturates at the largest row the terminal addresses.
pub fn message_row(line_count: usize) -> (row: u16)
    ensures
        row == min2(line_count as int + 1, u16::MAX as int),
{
    if line_count >= 65535 {
        65535
    } else {
        (line_count as u16) + 1
    }
}

} // verus!
