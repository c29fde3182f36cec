use vstd::prelude::*;

verus! {

/// The character of a decimal digit.
pub open spec fn digit_char(d: nat) -> char {
    ((48 + d) as u8) as char
}

/// The decimal notation of a natural number, most significant digit first.
pub open spec fn decimal(n: nat) -> Seq<char>
    decreases n,
{
    if n < 10 {
        seq![digit_char(n)]
    } else {
        decimal(n / 10).push(digit_char(n % 10))
    }
}

fn digit_str(d: u64) -> (s: &'static str)
    requires
        d < 10,
    ensures
        s@ == seq![digit_char(d as nat)],
{
    proof {
        reveal_strlit("0");
        reveal_strlit("1");
        reveal_strlit("2");
        reveal_strlit("3");
        reveal_strlit("4");
        reveal_strlit("5");
        reveal_strlit("6");
        reveal_strlit("7");
        reveal_strlit("8");
        reveal_strlit("9");
    }
    match d {
        0 => "0",
        1 => "1",
        2 => "2",
        3 => "3",
        4 => "4",
        5 => "5",
        6 => "6",
        7 => "7",
        8 => "8",
        _ => "9",
    }
}

/// The number that a string of decimal digits stands for.
pub open spec fn digits_value(s: Seq<char>) -> int
    decreases s.len(),
{
    if s.len() == 0 {
        0
    } else {
        digits_value(s.drop_last()) * 10 + (s.last() as int - 48)
    }
}

/// The decimal notation of `n` is made of digits, stands for `n`, and has no leading zero.
pub proof fn lemma_decimal_value(n: nat)
    ensures
        decimal(n).len() >= 1,
        digits_value(decimal(n)) == n,
        forall|i: int| 0 <= i < decimal(n).len() ==> '0' <= #[trigger] decimal(n)[i] <= '9',
        decimal(n).len() > 1 ==> decimal(n)[0] != '0',
    decreases n,
{
    if n >= 10 {
        lemma_decimal_value(n / 10);
        assert(decimal(n).drop_last() =~= decimal(n / 10));
        assert(decimal(n)[0] == decimal(n / 10)[0]);
        assert(digit_char(n % 10) as int == 48 + n % 10);
        assert((n / 10) * 10 + n % 10 == n);
        assert(digits_value(decimal(n)) == digits_value(decimal(n / 10)) * 10 + (decimal(n).last() as int - 48));
        if n / 10 < 10 {
            assert(digit_char(n / 10) as int == 48 + n / 10);
            assert(decimal(n / 10)[0] == digit_char(n / 10));
        } else {
            lemma_decimal_value(n / 10 / 10);
            assert(decimal(n / 10).len() > 1);
        }
        assert(digits_value(decimal(n)) == n);
        assert(decimal(n)[0] != '0');
    } else {
        assert(digit_char(n) as int == 48 + n);
        assert(decimal(n).drop_last() =~= Seq::<char>::empty());
        assert(decimal(n).len() == 1);
        assert(decimal(n).last() == digit_char(n));
        assert(digits_value(Seq::<char>::empty()) == 0);
        assert(digits_value(decimal(n)) == n);
    }
}

/// Writes `n` in decimal notation, as `format!("{}", n)` does.
pub fn decimal_string(n: u64) -> (s: String)
    ensures
        s@ == decimal(n as nat),
    decreases n,
{
    if n < 10 {
        String::from_str(digit_str(n))
    } else {
        let mut s = decimal_string(n / 10);
        s.append(digit_str(n % 10));
        s
    }
}

/// The position of the first occurrence of `pat` in `s` that starts at or after `from`.
pub open spec fn find_from(s: Seq<char>, pat: Seq<char>, from: int) -> Option<int>
    decreases s.len() - from,
    when 0 <= from
{
    if from + pat.len() > s.len() {
        None
    } else if s.subrange(from, from + pat.len()) =~= pat {
        Some(from)
    } else {
        find_from(s, pat, from + 1)
    }
}

/// What `find_from` finds is an occurrence of `pat` inside `s`, and the first one from `from` on.
pub proof fn lemma_find_from(s: Seq<char>, pat: Seq<char>, from: int)
    requires
        0 <= from,
    ensures
        match find_from(s, pat, from) {
            Some(i) => from <= i && i + pat.len() <= s.len() && s.subrange(i, i + pat.len())
                =~= pat && forall|j: int|
                from <= j < i ==> !(#[trigger] s.subrange(j, j + pat.len()) =~= pat),
            None => forall|j: int|
                from <= j && j + pat.len() <= s.len() ==> !(#[trigger] s.subrange(
                    j,
                    j + pat.len(),
                ) =~= pat),
        },
    decreases s.len() - from,
{
    if from + pat.len() > s.len() {
    } else if s.subrange(from, from + pat.len()) =~= pat {
    } else {
        lemma_find_from(s, pat, from + 1);
    }
}

/// An occurrence of `pat` at `k` with none between `from` and `k` is what `find_from` finds.
pub proof fn lemma_find_from_some(s: Seq<char>, pat: Seq<char>, from: int, k: int)
    requires
        0 <= from <= k,
        k + pat.len() <= s.len(),
        s.subrange(k, k + pat.len()) =~= pat,
        forall|j: int| from <= j < k ==> !(#[trigger] s.subrange(j, j + pat.len()) =~= pat),
    ensures
        find_from(s, pat, from) == Some(k),
    decreases k - from,
{
    if from < k {
        assert(!(s.subrange(from, from + pat.len()) =~= pat));
        lemma_find_from_some(s, pat, from + 1, k);
    }
}

/// With no occurrence of `pat` from `from` on, `find_from` finds nothing.
pub proof fn lemma_find_from_none(s: Seq<char>, pat: Seq<char>, from: int)
    requires
        0 <= from,
        forall|j: int|
            from <= j && j + pat.len() <= s.len() ==> !(#[trigger] s.subrange(j, j + pat.len())
                =~= pat),
    ensures
        find_from(s, pat, from) is None,
    decreases s.len() - from,
{
    if from + pat.len() <= s.len() {
        assert(!(s.subrange(from, from + pat.len()) =~= pat));
        lemma_find_from_none(s, pat, from + 1);
    }
}

/// `s` begins with `prefix`.
pub open spec fn starts_with(s: Seq<char>, prefix: Seq<char>) -> bool {
    prefix.len() <= s.len() && s.subrange(0, prefix.len() as int) =~= prefix
}

/// Finds the first occurrence of `pat` in `s` (counted in characters) at or after `from`.
pub fn find_in(s: &str, pat: &[char], from: usize) -> (r: Option<usize>)
    requires
        from <= s@.len(),
    ensures
        match find_from(s@, pat@, from as int) {
            Some(i) => r == Some(i as usize),
            None => r is None,
        },
{
    let n = s.unicode_len();
    let m = pat.len();
    let mut i = from;
    while i <= n && n - i >= m
        invariant
            from <= i,
            n == s@.len(),
            m == pat@.len(),
            find_from(s@, pat@, from as int) == find_from(s@, pat@, i as int),
        decreases n - i,
    {
        let mut j: usize = 0;
        let mut matched = true;
        while j < m
            invariant
                i + m <= n,
                n == s@.len(),
                m == pat@.len(),
                j <= m,
                matched <==> (forall|k: int| 0 <= k < j ==> s@[i + k] == pat@[k]),
            decreases m - j,
        {
            if s.get_char(i + j) != pat[j] {
                matched = false;
            }
            j += 1;
        }
        if matched {
            assert(s@.subrange(i as int, i + m) =~= pat@);
            return Some(i);
        }
        assert(!(s@.subrange(i as int, i + m) =~= pat@)) by {
            let k = choose|k: int| 0 <= k < m && s@[i + k] != pat@[k];
            assert(s@.subrange(i as int, i + m)[k] == s@[i + k]);
        }
        i += 1;
    }
    None
}

/// Tells whether `s` begins with the characters of `prefix`.
pub fn has_prefix(s: &str, prefix: &[char]) -> (r: bool)
    ensures
        r == starts_with(s@, prefix@),
{
    let n = s.unicode_len();
    let m = prefix.len();
    if m > n {
        return false;
    }
    let mut j: usize = 0;
    while j < m
        invariant
            m <= n,
            n == s@.len(),
            m == prefix@.len(),
            j <= m,
            forall|k: int| 0 <= k < j ==> s@[k] == prefix@[k],
        decreases m - j,
    {
        if s.get_char(j) != prefix[j] {
            assert(s@.subrange(0, m as int)[j as int] != prefix@[j as int]);
            return false;
        }
        j += 1;
    }
    assert(s@.subrange(0, m as int) =~= prefix@);
    true
}

} // verus!
