use vstd::prelude::*;

verus! {

/// A run of `n` spaces.
pub open spec fn spaces_of(n: nat) -> Seq<char> {
    Seq::new(n, |i: int| ' ')
}

/// A run of `len` space bytes.
pub fn bspaces(len: u8) -> (r: Vec<u8>)
    ensures
        r@ == Seq::new(len as nat, |i: int| 32u8),
{
    let mut v: Vec<u8> = Vec::new();
    let mut i: u8 = 0;
    while i < len
        invariant
            i <= len,
            v@ == Seq::new(i as nat, |k: int| 32u8),
        decreases len - i,
    {
        v.push(32u8);
        i = i + 1;
        assert(v@ =~= Seq::new(i as nat, |k: int| 32u8));
    }
    v
}

/// A run of `n` spaces.
pub fn spaces(n: usize) -> (r: String)
    ensures
        r@ == spaces_of(n as nat),
{
    let mut s = String::new();
    let mut i: usize = 0;
    while i < n
        invariant
            i <= n,
            s@ == spaces_of(i as nat),
        decreases n - i,
    {
        s.append(" ");
        proof { reveal_strlit(" "); }
        i = i + 1;
        assert(s@ =~= spaces_of(i as nat));
    }
    s
}


/// `n` copies of the single character of `unit`.
pub fn repeated(unit: &str, n: usize) -> (r: String)
    requires
        unit@.len() == 1,
    ensures
        r@ == Seq::new(n as nat, |i: int| unit@[0]),
{
    let mut s = String::new();
    let mut i: usize = 0;
    while i < n
        invariant
            i <= n,
            unit@.len() == 1,
            s@ == Seq::new(i as nat, |k: int| unit@[0]),
        decreases n - i,
    {
        s.append(unit);
        i = i + 1;
        assert(s@ =~= Seq::new(i as nat, |k: int| unit@[0]));
    }
    s
}

/// The decimal digits of `n`, most significant first, without leading zeros.
pub open spec fn decimal_of(n: nat) -> Seq<char>
    decreases n,
{
    if n < 10 {
        seq!["0123456789"@[n as int]]
    } else {
        decimal_of(n / 10).push("0123456789"@[(n % 10) as int])
    }
}

/// Relies on std's `ToString` for `usize`: its decimal representation.
#[verifier::external_body]
pub(crate) fn decimal(n: usize) -> (r: String)
    ensures
        r@ == decimal_of(n as nat),
{
    n.to_string()
}

/// `s` followed by spaces up to `width` characters; `s` itself when it is
/// already that long.
pub open spec fn left_aligned(s: Seq<char>, width: nat) -> Seq<char> {
    if s.len() >= width { s } else { s + spaces_of((width - s.len()) as nat) }
}

pub fn pad_right(s: String, width: usize) -> (r: String)
    ensures
        r@ == left_aligned(s@, width as nat),
{
    let len = s.as_str().unicode_len();
    if len >= width {
        s
    } else {
        let pad = spaces(width - len);
        s.concat(pad.as_str())
    }
}

} // verus!
