//! Small string utilities with exact contracts over `Seq<char>`.

use vstd::prelude::*;
use vstd::string::*;

verus! {

/// `true` exactly when the two strings hold the same characters.
pub fn str_eq(a: &str, b: &str) -> (r: bool)
    ensures
        r == (a@ == b@),
{
    let n = a.unicode_len();
    let m = b.unicode_len();
    if n != m {
        return false;
    }
    let mut i: usize = 0;
    while i < n
        invariant
            n == a@.len(),
            m == b@.len(),
            n == m,
            i <= n,
            forall|j: int| 0 <= j < i ==> a@[j] == b@[j],
        decreases n - i,
    {
        if a.get_char(i) != b.get_char(i) {
            return false;
        }
        i = i + 1;
    }
    assert(a@ =~= b@);
    true
}

/// The characters of a sequence of strings.
pub open spec fn views(s: Seq<String>) -> Seq<Seq<char>> {
    s.map_values(|x: String| x@)
}

/// The strings of `list` joined by `sep`: `sep` stands between each two
/// neighbours, and not before the first or after the last.
pub open spec fn seq_join(list: Seq<Seq<char>>, sep: Seq<char>) -> Seq<char>
    decreases list.len(),
{
    if list.len() == 0 {
        Seq::empty()
    } else if list.len() == 1 {
        list[0]
    } else {
        seq_join(list.drop_last(), sep) + sep + list.last()
    }
}

/// Joins the strings of `list`, putting `sep` between each two neighbours.
pub fn join(list: &[String], sep: &str) -> (r: String)
    ensures
        r@ == seq_join(views(list@), sep@),
{
    let n = list.len();
    let mut res = String::new();
    let ghost l = views(list@);
    for i in 0..n
        invariant
            n == list@.len(),
            l == views(list@),
            res@ == seq_join(l.take(i as int), sep@),
    {
        assert(l.take(i + 1).drop_last() =~= l.take(i as int));
        if i != 0 {
            res.append(sep);
        } else {
            assert(res@ =~= Seq::<char>::empty());
        }
        res.append(list[i].as_str());
        assert(l.take(i + 1).last() == list@[i as int]@);
    }
    assert(l.take(n as int) =~= l);
    res
}

/// The ten decimal digits.
pub open spec fn digit_chars() -> Seq<char> {
    seq!['0', '1', '2', '3', '4', '5', '6', '7', '8', '9']
}

/// The decimal notation of `n`, without leading zeros.
pub open spec fn decimal(n: nat) -> Seq<char>
    decreases n,
{
    if n < 10 {
        seq![digit_chars()[n as int]]
    } else {
        decimal(n / 10).push(digit_chars()[(n % 10) as int])
    }
}

/// The digit `d` as a one-character string.
fn digit_str(d: u32) -> (r: &'static str)
    requires
        d < 10,
    ensures
        r@ == seq![digit_chars()[d as int]],
{
    match d {
        0 => {
            proof { reveal_strlit("0"); }
            "0"
        },
        1 => {
            proof { reveal_strlit("1"); }
            "1"
        },
        2 => {
            proof { reveal_strlit("2"); }
            "2"
        },
        3 => {
            proof { reveal_strlit("3"); }
            "3"
        },
        4 => {
            proof { reveal_strlit("4"); }
            "4"
        },
        5 => {
            proof { reveal_strlit("5"); }
            "5"
        },
        6 => {
            proof { reveal_strlit("6"); }
            "6"
        },
        7 => {
            proof { reveal_strlit("7"); }
            "7"
        },
        8 => {
            proof { reveal_strlit("8"); }
            "8"
        },
        _ => {
            proof { reveal_strlit("9"); }
            "9"
        },
    }
}

/// Appends the decimal notation of `n` to `out`.
pub fn push_decimal(out: &mut String, n: u32)
    ensures
        final(out)@ == old(out)@ + decimal(n as nat),
    decreases n,
{
    if n >= 10 {
        push_decimal(out, n / 10);
    }
    out.append(digit_str(n % 10));
    assert(decimal(n as nat) == if n < 10 {
        seq![digit_chars()[n as int]]
    } else {
        decimal((n / 10) as nat).push(digit_chars()[(n % 10) as int])
    });
}

/// `c` in upper case, for the ASCII letters; other characters are kept.
pub open spec fn ascii_upper_char(c: char) -> char {
    if 'a' <= c && c <= 'z' {
        ((c as int) - 32) as char
    } else {
        c
    }
}

/// `s` with its ASCII lowercase letters in upper case.
pub open spec fn ascii_upper(s: Seq<char>) -> Seq<char> {
    s.map_values(|c: char| ascii_upper_char(c))
}

/// `t` occurs in `s`: `s` is `t` with something before and after it.
pub open spec fn has_substring(s: Seq<char>, t: Seq<char>) -> bool {
    exists|a: Seq<char>, b: Seq<char>| s == #[trigger] (a + t + b)
}

/// Each of the joined strings occurs in the joined text.
pub proof fn lemma_join_holds(list: Seq<Seq<char>>, sep: Seq<char>, k: int)
    requires
        0 <= k < list.len(),
    ensures
        has_substring(seq_join(list, sep), list[k]),
    decreases list.len(),
{
    let j = seq_join(list, sep);
    if list.len() == 1 {
        let e = Seq::<char>::empty();
        assert(j =~= e + list[k] + e);
    } else if k == list.len() - 1 {
        let e = Seq::<char>::empty();
        let a = seq_join(list.drop_last(), sep) + sep;
        assert(j =~= a + list[k] + e);
    } else {
        let init = list.drop_last();
        lemma_join_holds(init, sep, k);
        let (a, b) = choose|a: Seq<char>, b: Seq<char>| seq_join(init, sep) == #[trigger] (a + init[k] + b);
        assert(init[k] == list[k]);
        assert(j =~= a + list[k] + (b + sep + list.last()));
    }
}

/// A piece of a text occurs in any text that holds that text.
pub proof fn lemma_substring_within(x: Seq<char>, s: Seq<char>, y: Seq<char>, t: Seq<char>)
    requires
        has_substring(s, t),
    ensures
        has_substring(x + s + y, t),
{
    let (a, b) = choose|a: Seq<char>, b: Seq<char>| s == #[trigger] (a + t + b);
    assert(x + s + y =~= (x + a) + t + (b + y));
}

} // verus!
