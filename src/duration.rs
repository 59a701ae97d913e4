use vstd::prelude::*;

verus! {

pub open spec fn digit_char(d: nat) -> char {
    if d == 0 {
        '0'
    } else if d == 1 {
        '1'
    } else if d == 2 {
        '2'
    } else if d == 3 {
        '3'
    } else if d == 4 {
        '4'
    } else if d == 5 {
        '5'
    } else if d == 6 {
        '6'
    } else if d == 7 {
        '7'
    } else if d == 8 {
        '8'
    } else {
        '9'
    }
}

/// Decimal digits of `n`, most significant first, without leading zeros.
pub open spec fn decimal(n: nat) -> Seq<char>
    decreases n,
{
    if n < 10 {
        seq![digit_char(n)]
    } else {
        decimal(n / 10).push(digit_char(n % 10))
    }
}

/// `s` with zeros in front up to `width` characters.
pub open spec fn zero_padded(s: Seq<char>, width: nat) -> Seq<char> {
    if s.len() >= width {
        s
    } else {
        Seq::new((width - s.len()) as nat, |i: int| '0') + s
    }
}

/// The text of a duration: `HHHH` + "H:" + `MM` + "M:" + `SS` + "S", from whole seconds.
pub open spec fn duration_text(ms: nat) -> Seq<char> {
    let secs = ms / 1000;
    zero_padded(decimal(secs / 3600), 4) + seq!['H', ':'] + zero_padded(decimal((secs % 3600) / 60), 2)
        + seq!['M', ':'] + zero_padded(decimal(secs % 60), 2) + seq!['S']
}

fn digit_str(d: u64) -> (r: &'static str)
    requires
        d < 10,
    ensures
        r@ == seq![digit_char(d as nat)],
{
    proof {
        reveal_strlit("0");
        reveal_strlit("1");
        reveal_strlit("2");
        reveal_strlit("3");
        reveal_strlit("4");
        reveal_strlit("5");
        reveal_strlit("6");
        reveal_strlit("7");
        reveal_strlit("8");
        reveal_strlit("9");
    }
    if d == 0 {
        "0"
    } else if d == 1 {
        "1"
    } else if d == 2 {
        "2"
    } else if d == 3 {
        "3"
    } else if d == 4 {
        "4"
    } else if d == 5 {
        "5"
    } else if d == 6 {
        "6"
    } else if d == 7 {
        "7"
    } else if d == 8 {
        "8"
    } else {
        "9"
    }
}

fn write_decimal(out: &mut String, n: u64)
    ensures
        final(out)@ == old(out)@ + decimal(n as nat),
    decreases n,
{
    if n >= 10 {
        write_decimal(out, n / 10);
    }
    out.append(digit_str(n % 10));
    assert(decimal(n as nat) == if n < 10 {
        seq![digit_char(n as nat)]
    } else {
        decimal((n / 10) as nat).push(digit_char((n % 10) as nat))
    });
    assert(final(out)@ =~= old(out)@ + decimal(n as nat));
}

fn write_padded(out: &mut String, n: u64, width: usize)
    ensures
        final(out)@ == old(out)@ + zero_padded(decimal(n as nat), width as nat),
{
    let mut digits = String::new();
    write_decimal(&mut digits, n);
    assert(digits@ =~= decimal(n as nat));
    let len = digits.as_str().unicode_len();
    let ghost start = out@;
    let mut i: usize = len;
    while i < width
        invariant
            len <= i,
            len as nat == decimal(n as nat).len(),
            len < width ==> i <= width,
            len >= width ==> i == len,
            out@ =~= start + Seq::new((i - len) as nat, |j: int| '0'),
        decreases width - i,
    {
        proof {
            reveal_strlit("0");
        }
        out.append("0");
        i = i + 1;
        assert(out@ =~= start + Seq::new((i - len) as nat, |j: int| '0'));
    }
    out.append(digits.as_str());
    if len >= width {
        assert(i == len);
        assert(out@ =~= start + zero_padded(decimal(n as nat), width as nat));
    } else {
        assert(i == width);
        assert(out@ =~= start + zero_padded(decimal(n as nat), width as nat));
    }
}

/// Formats a duration given in milliseconds as hours, minutes and seconds.
pub fn format_duration(ms: u64) -> (r: String)
    ensures
        r@ == duration_text(ms as nat),
{
    let total_secs = ms / 1000;
    let hours = total_secs / 3600;
    let mins = (total_secs % 3600) / 60;
    let secs = total_secs % 60;
    proof {
        reveal_strlit("H:");
        reveal_strlit("M:");
        reveal_strlit("S");
    }
    let mut out = String::new();
    write_padded(&mut out, hours, 4);
    out.append("H:");
    write_padded(&mut out, mins, 2);
    out.append("M:");
    write_padded(&mut out, secs, 2);
    out.append("S");
    assert(out@ =~= duration_text(ms as nat));
    out
}

} // verus!
