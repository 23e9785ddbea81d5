use vstd::prelude::*;

verus! {

/// No line of pixel data grows past this many characters.
pub const LINE_LIMIT: usize = 70;

pub const NEWLINE: u8 = 10;

pub const SPACE: u8 = 32;

/// The decimal digits of `v`, in ASCII, without leading zeros.
pub open spec fn decimal(v: nat) -> Seq<u8>
    decreases v,
{
    if v < 10 {
        seq![(48 + v) as u8]
    } else {
        decimal(v / 10).push((48 + v % 10) as u8)
    }
}

/// Writes the digits `d` of one channel value at column `col` of `text`:
/// first a line break if they would pass the limit, then the digits, then a
/// line break if no further value could fit, a space otherwise. Returns the
/// new text and column.
pub open spec fn put_value(text: Seq<u8>, col: nat, d: Seq<u8>) -> (Seq<u8>, nat) {
    let wrapped = col + d.len() > LINE_LIMIT;
    let t1 = if wrapped { text.push(NEWLINE) } else { text };
    let c1 = if wrapped { 0 } else { col };
    let t2 = t1 + d;
    let c2 = c1 + d.len();
    if c2 + 4 > LINE_LIMIT {
        (t2.push(NEWLINE), 0)
    } else {
        (t2.push(SPACE), c2 + 1)
    }
}

/// The text and column after the first `k` channel values of one row; the
/// row's last value is written as bare digits.
pub open spec fn row_layout(row: Seq<u8>, k: int) -> (Seq<u8>, nat)
    decreases k,
{
    if k <= 0 {
        (Seq::empty(), 0)
    } else {
        let prev = row_layout(row, k - 1);
        let d = decimal(row[k - 1] as nat);
        if k == row.len() {
            (prev.0 + d, prev.1)
        } else {
            put_value(prev.0, prev.1, d)
        }
    }
}

/// The channel values of row `y` of an image `width` pixels wide.
pub open spec fn row_of(channels: Seq<u8>, width: nat, y: nat) -> Seq<u8> {
    channels.subrange((3 * width * y) as int, (3 * width * (y + 1)) as int)
}

/// The text of the first `y` rows, each ended by a line break.
pub open spec fn rows_text(channels: Seq<u8>, width: nat, y: nat) -> Seq<u8>
    decreases y,
{
    if y == 0 {
        Seq::empty()
    } else {
        let row = row_of(channels, width, (y - 1) as nat);
        rows_text(channels, width, (y - 1) as nat) + row_layout(row, row.len() as int).0 + seq![NEWLINE]
    }
}

/// The header of a plain PPM image: magic number, size and largest value.
pub open spec fn ppm_header(width: nat, height: nat) -> Seq<u8> {
    seq![80u8, 51u8, NEWLINE] + decimal(width) + seq![SPACE] + decimal(height) + seq![NEWLINE, 50u8, 53u8, 53u8, NEWLINE]
}

/// A plain (P3) PPM image of the given size whose channel values, red, green
/// and blue for each pixel, row after row, are `channels`.
pub open spec fn ppm(width: nat, height: nat, channels: Seq<u8>) -> Seq<u8> {
    ppm_header(width, height) + rows_text(channels, width, height) + seq![NEWLINE]
}

/// Appends the decimal digits of `v`.
fn push_decimal(out: &mut Vec<u8>, v: usize)
    ensures
        final(out)@ == old(out)@ + decimal(v as nat),
    decreases v,
{
    if v >= 10 {
        push_decimal(out, v / 10);
        out.push((48 + v % 10) as u8);
        assert(final(out)@ =~= old(out)@ + decimal(v as nat));
    } else {
        out.push((48 + v) as u8);
        assert(final(out)@ =~= old(out)@ + decimal(v as nat));
    }
}

/// The text of a plain PPM image `width` by `height` pixels whose channel
/// values are `channels`: red, green and blue of each pixel, row after row.
pub fn ppm_text(width: usize, height: usize, channels: &Vec<u8>) -> (r: Vec<u8>)
    requires
        channels@.len() == 3 * width * height,
    ensures
        r@ == ppm(width as nat, height as nat, channels@),
{
    let mut out: Vec<u8> = Vec::new();
    out.push(80);
    out.push(51);
    out.push(NEWLINE);
    push_decimal(&mut out, width);
    out.push(SPACE);
    push_decimal(&mut out, height);
    out.push(NEWLINE);
    out.push(50);
    out.push(53);
    out.push(53);
    out.push(NEWLINE);
    let ghost header = out@;
    assert(header =~= ppm_header(width as nat, height as nat));
    let mut y: usize = 0;
    let n: usize = channels.len();
    while y < height
        invariant
            y <= height,
            channels@.len() == 3 * width * height,
            n == channels@.len(),
            header == ppm_header(width as nat, height as nat),
            out@ == header + rows_text(channels@, width as nat, y as nat),
        decreases height - y,
    {
        proof {
            assert(3 * width * (y + 1) <= 3 * width * height) by (nonlinear_arith)
                requires
                    y + 1 <= height,
            ;
            assert(3 * width * y + 3 * width == 3 * width * (y + 1)) by (nonlinear_arith);
            assert(3 * width * y <= 3 * width * (y + 1)) by (nonlinear_arith);
            assert(3 * width <= 3 * width * (y + 1)) by (nonlinear_arith);
            assert(channels@.len() <= usize::MAX);
        }
        let row_len: usize = 3 * width;
        let start: usize = 3 * width * y;
        let ghost row = row_of(channels@, width as nat, y as nat);
        let ghost before = out@;
        let mut col: usize = 0;
        let mut k: usize = 0;
        while k < row_len
            invariant
                k <= row_len,
                row_len == 3 * width,
                start + row_len <= channels@.len(),
                n == channels@.len(),
                row == channels@.subrange(start as int, start + row_len),
                out@ == before + row_layout(row, k as int).0,
                col == row_layout(row, k as int).1,
                col <= LINE_LIMIT,
            decreases row_len - k,
        {
            let mut d: Vec<u8> = Vec::new();
            push_decimal(&mut d, channels[start + k] as usize);
            assert(d@ =~= decimal(row[k as int] as nat));
            proof {
                lemma_channel_digits(row[k as int]);
            }
            let ghost prev = out@;
            if k + 1 == row_len {
                append(&mut out, &d);
            } else {
                if col + d.len() > LINE_LIMIT {
                    out.push(NEWLINE);
                    col = 0;
                }
                append(&mut out, &d);
                col = col + d.len();
                if col + 4 > LINE_LIMIT {
                    out.push(NEWLINE);
                    col = 0;
                } else {
                    out.push(SPACE);
                    col = col + 1;
                }
            }
            proof {
                let p = row_layout(row, k as int);
                assert(prev == before + p.0);
                if k + 1 == row_len {
                    assert(out@ =~= before + (p.0 + d@));
                } else {
                    let wrapped = p.1 + d@.len() > LINE_LIMIT;
                    let t1 = if wrapped { p.0.push(NEWLINE) } else { p.0 };
                    let t2 = t1 + d@;
                    if (if wrapped { 0 } else { p.1 }) + d@.len() + 4 > LINE_LIMIT {
                        assert(out@ =~= before + t2.push(NEWLINE));
                    } else {
                        assert(out@ =~= before + t2.push(SPACE));
                    }
                }
            }
            k = k + 1;
        }
        out.push(NEWLINE);
        proof {
            assert(row.len() == row_len);
            assert(out@ =~= header + rows_text(channels@, width as nat, (y + 1) as nat));
        }
        y = y + 1;
    }
    out.push(NEWLINE);
    out
}

proof fn lemma_channel_digits(v: u8)
    ensures
        decimal(v as nat).len() <= 3,
{
    reveal_with_fuel(decimal, 3);
}

/// Appends the bytes of `d`.
fn append(out: &mut Vec<u8>, d: &Vec<u8>)
    ensures
        final(out)@ == old(out)@ + d@,
{
    let mut k: usize = 0;
    while k < d.len()
        invariant
            k <= d.len(),
            out@ == old(out)@ + d@.take(k as int),
        decreases d.len() - k,
    {
        out.push(d[k]);
        assert(d@.take(k + 1) =~= d@.take(k as int).push(d@[k as int]));
        assert(out@ =~= old(out)@ + d@.take(k + 1));
        k = k + 1;
    }
    assert(d@.take(d.len() as int) =~= d@);
}

} // verus!
