//! Where a database keeps its files, and the decimal text of a generation
//! number as the meta file holds it.
use vstd::prelude::*;

use crate::text::{chars_of, push_char};

verus! {

/// The digit character of a value below ten.
pub open spec fn digit_char(d: nat) -> char {
    if d == 0 {
        '0'
    } else if d == 1 {
        '1'
    } else if d == 2 {
        '2'
    } else if d == 3 {
        '3'
    } else if d == 4 {
        '4'
    } else if d == 5 {
        '5'
    } else if d == 6 {
        '6'
    } else if d == 7 {
        '7'
    } else if d == 8 {
        '8'
    } else {
        '9'
    }
}

/// The value of a decimal digit, or -1 for any other character.
pub open spec fn digit_value(c: char) -> int {
    if c == '0' {
        0
    } else if c == '1' {
        1
    } else if c == '2' {
        2
    } else if c == '3' {
        3
    } else if c == '4' {
        4
    } else if c == '5' {
        5
    } else if c == '6' {
        6
    } else if c == '7' {
        7
    } else if c == '8' {
        8
    } else if c == '9' {
        9
    } else {
        -1
    }
}

/// Every character is a decimal digit.
pub open spec fn all_digits(s: Seq<char>) -> bool {
    forall|i: int| 0 <= i < s.len() ==> digit_value(#[trigger] s[i]) >= 0
}

/// The value of a string of decimal digits, most significant first.
pub open spec fn decimal_value(s: Seq<char>) -> int
    decreases s.len(),
{
    if s.len() == 0 {
        0
    } else {
        decimal_value(s.drop_last()) * 10 + digit_value(s.last())
    }
}

/// The decimal text of `n`, without leading zeros.
pub open spec fn decimal_text(n: nat) -> Seq<char>
    decreases n,
{
    if n < 10 {
        seq![digit_char(n)]
    } else {
        decimal_text(n / 10).push(digit_char(n % 10))
    }
}

/// The digits of an unsigned number's text: the text without one leading `+`.
pub open spec fn unsigned_digits(s: Seq<char>) -> Seq<char> {
    if s.len() > 0 && s[0] == '+' {
        s.drop_first()
    } else {
        s
    }
}

/// The generation that a meta file's text names: its value read as a `usize`
/// (an optional `+`, then one or more decimal digits, a value that fits),
/// else 0.
pub open spec fn generation_of(meta: Seq<char>) -> nat {
    let ds = unsigned_digits(meta);
    if ds.len() > 0 && all_digits(ds) && decimal_value(ds) <= usize::MAX {
        decimal_value(ds) as nat
    } else {
        0
    }
}

/// The name of the meta file inside the directory.
pub open spec fn meta_path_of(dir: Seq<char>) -> Seq<char> {
    dir + "/meta"@
}

/// The checkpoint file of generation `g`.
pub open spec fn checkpoint_path_of(dir: Seq<char>, g: nat) -> Seq<char> {
    dir + "/checkpoint"@ + decimal_text(g) + ".lidb"@
}

/// The journal file of generation `g`.
pub open spec fn journal_path_of(dir: Seq<char>, g: nat) -> Seq<char> {
    dir + "/log"@ + decimal_text(g) + ".lidb"@
}

/// Where a file is written before it is renamed over `path`.
pub open spec fn temp_path_of(path: Seq<char>) -> Seq<char> {
    path + ".tmp"@
}

fn digit_char_exec(d: usize) -> (c: char)
    requires
        d < 10,
    ensures
        c == digit_char(d as nat),
{
    if d == 0 {
        '0'
    } else if d == 1 {
        '1'
    } else if d == 2 {
        '2'
    } else if d == 3 {
        '3'
    } else if d == 4 {
        '4'
    } else if d == 5 {
        '5'
    } else if d == 6 {
        '6'
    } else if d == 7 {
        '7'
    } else if d == 8 {
        '8'
    } else {
        '9'
    }
}

fn digit_value_exec(c: char) -> (r: Option<usize>)
    ensures
        match r {
            Some(d) => d < 10 && d as int == digit_value(c),
            None => digit_value(c) < 0,
        },
{
    if c == '0' {
        Some(0)
    } else if c == '1' {
        Some(1)
    } else if c == '2' {
        Some(2)
    } else if c == '3' {
        Some(3)
    } else if c == '4' {
        Some(4)
    } else if c == '5' {
        Some(5)
    } else if c == '6' {
        Some(6)
    } else if c == '7' {
        Some(7)
    } else if c == '8' {
        Some(8)
    } else if c == '9' {
        Some(9)
    } else {
        None
    }
}

/// The decimal text of `n`.
pub fn decimal(n: usize) -> (r: String)
    ensures
        r@ == decimal_text(n as nat),
    decreases n,
{
    if n < 10 {
        let mut s = String::new();
        push_char(&mut s, digit_char_exec(n));
        assert(s@ =~= decimal_text(n as nat));
        s
    } else {
        let mut s = decimal(n / 10);
        push_char(&mut s, digit_char_exec(n % 10));
        s
    }
}

proof fn lemma_decimal_prefix_bound(s: Seq<char>, k: int)
    requires
        0 <= k <= s.len(),
        all_digits(s),
    ensures
        0 <= decimal_value(s.take(k)) <= decimal_value(s),
    decreases s.len() - k,
{
    if k < s.len() {
        lemma_decimal_prefix_bound(s, k + 1);
        assert(s.take(k + 1).drop_last() =~= s.take(k));
        assert(digit_value(s[k]) >= 0);
        lemma_decimal_nonneg(s.take(k));
    } else {
        assert(s.take(k) =~= s);
        lemma_decimal_nonneg(s);
    }
}

proof fn lemma_decimal_nonneg(s: Seq<char>)
    requires
        all_digits(s),
    ensures
        decimal_value(s) >= 0,
    decreases s.len(),
{
    if s.len() > 0 {
        assert(digit_value(s[s.len() - 1]) >= 0);
        lemma_decimal_nonneg(s.drop_last());
    }
}

/// The generation that the meta file's text names (see `generation_of`);
/// a missing meta file names generation 0.
pub fn generation_from_meta(meta: Option<&str>) -> (r: usize)
    ensures
        r == match meta {
            Some(t) => generation_of(t@),
            None => 0,
        },
{
    match meta {
        Some(t) => parse_generation(t),
        None => 0,
    }
}

/// The generation that a meta file's text names (see `generation_of`).
pub fn parse_generation(text: &str) -> (r: usize)
    ensures
        r == generation_of(text@),
{
    let ghost ds = unsigned_digits(text@);
    let mut cs = chars_of(text);
    if cs.len() > 0 && cs[0] == '+' {
        cs.remove(0);
    }
    assert(cs@ =~= ds);
    if cs.len() == 0 {
        return 0;
    }
    let mut value: usize = 0;
    let mut i: usize = 0;
    while i < cs.len()
        invariant
            i <= cs@.len(),
            cs@ == ds,
            ds == unsigned_digits(text@),
            all_digits(cs@.take(i as int)),
            value as int == decimal_value(cs@.take(i as int)),
        decreases cs@.len() - i,
    {
        assert(cs@.take(i + 1).drop_last() =~= cs@.take(i as int));
        let d = match digit_value_exec(cs[i]) {
            Some(d) => d,
            None => {
                assert(!all_digits(ds)) by {
                    assert(digit_value(ds[i as int]) < 0);
                }
                return 0;
            },
        };
        assert(cs@.take(i + 1).last() == cs@[i as int]);
        if value > (usize::MAX - d) / 10 {
            proof {
                assert(value * 10 + d > usize::MAX) by (nonlinear_arith)
                    requires
                        value > (usize::MAX - d) / 10,
                        d < 10,
                ;
                assert(decimal_value(cs@.take(i + 1)) == value * 10 + d);
                if all_digits(ds) {
                    lemma_decimal_prefix_bound(ds, i + 1);
                }
            }
            return 0;
        }
        assert(value * 10 + d <= usize::MAX) by (nonlinear_arith)
            requires
                value <= (usize::MAX - d) / 10,
                d < 10,
        ;
        value = value * 10 + d;
        i = i + 1;
        assert(all_digits(cs@.take(i as int))) by {
            assert forall|k: int| 0 <= k < i implies digit_value(#[trigger] cs@.take(i as int)[k])
                >= 0 by {
                if k < i - 1 {
                    assert(cs@.take(i as int)[k] == cs@.take(i - 1)[k]);
                }
            }
        }
    }
    assert(cs@.take(i as int) =~= ds);
    value
}

/// Reading back the decimal text of a generation gives that generation.
pub proof fn lemma_generation_round_trip(n: usize)
    ensures
        generation_of(decimal_text(n as nat)) == n,
{
    lemma_decimal_text(n as nat);
}

proof fn lemma_decimal_text(n: nat)
    ensures
        decimal_text(n).len() > 0,
        all_digits(decimal_text(n)),
        decimal_value(decimal_text(n)) == n,
    decreases n,
{
    if n < 10 {
        let s = decimal_text(n);
        assert(s.drop_last() =~= Seq::<char>::empty());
        assert(decimal_value(Seq::<char>::empty()) == 0);
        assert(digit_value(digit_char(n)) == n);
    } else {
        lemma_decimal_text(n / 10);
        let s = decimal_text(n);
        let p = decimal_text(n / 10);
        assert(s.drop_last() =~= p);
        assert(digit_value(digit_char(n % 10)) == n % 10);
        assert(n / 10 * 10 + n % 10 == n) by (nonlinear_arith);
        assert forall|i: int| 0 <= i < s.len() implies digit_value(#[trigger] s[i]) >= 0 by {
            if i < p.len() {
                assert(s[i] == p[i]);
            }
        }
    }
}

fn path_with(dir: &str, middle: &str, g: usize, suffix: &str) -> (r: String)
    ensures
        r@ == dir@ + middle@ + decimal_text(g as nat) + suffix@,
{
    let mut s = String::from_str(dir);
    s.append(middle);
    let digits = decimal(g);
    s.append(digits.as_str());
    s.append(suffix);
    s
}

/// The meta file of the database in `dir`.
pub fn meta_path(dir: &str) -> (r: String)
    ensures
        r@ == meta_path_of(dir@),
{
    let mut s = String::from_str(dir);
    s.append("/meta");
    s
}

/// The checkpoint file of generation `g` of the database in `dir`.
pub fn checkpoint_path(dir: &str, g: usize) -> (r: String)
    ensures
        r@ == checkpoint_path_of(dir@, g as nat),
{
    path_with(dir, "/checkpoint", g, ".lidb")
}

/// The journal file of generation `g` of the database in `dir`.
pub fn journal_path(dir: &str, g: usize) -> (r: String)
    ensures
        r@ == journal_path_of(dir@, g as nat),
{
    path_with(dir, "/log", g, ".lidb")
}

/// Where a file is written before it is renamed over `path`.
pub fn temp_path(path: &str) -> (r: String)
    ensures
        r@ == temp_path_of(path@),
{
    let mut s = String::from_str(path);
    s.append(".tmp");
    s
}

} // verus!
