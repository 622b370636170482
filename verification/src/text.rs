//! Character-level text utilities: word splitting, trimming, locating the
//! last space, the URL token grammar, substring search, and decimal ordinals.

use vstd::prelude::*;

verus! {

/// ASCII whitespace, the separator set used when a line is split into words.
pub open spec fn is_wspace(c: char) -> bool {
    c == ' ' || c == '\t' || c == '\n' || c == '\x0c' || c == '\r'
}

/// ASCII whitespace, as executable code.
pub fn wspace_char(c: char) -> (r: bool)
    ensures
        r == is_wspace(c),
{
    c == ' ' || c == '\t' || c == '\n' || c == '\x0c' || c == '\r'
}

/// Unicode whitespace (the `White_Space` property), the set that trimming
/// removes and that the URL grammar's "no whitespace" clauses exclude.
pub open spec fn is_uni_space(c: char) -> bool {
    let u = c as u32;
    (0x9 <= u && u <= 0xd) || u == 0x20 || u == 0x85 || u == 0xa0 || u == 0x1680 || (0x2000 <= u
        && u <= 0x200a) || u == 0x2028 || u == 0x2029 || u == 0x202f || u == 0x205f || u == 0x3000
}

/// Unicode whitespace, as executable code.
pub fn uni_space_char(c: char) -> (r: bool)
    ensures
        r == is_uni_space(c),
{
    let u = c as u32;
    (0x9 <= u && u <= 0xd) || u == 0x20 || u == 0x85 || u == 0xa0 || u == 0x1680 || (0x2000 <= u
        && u <= 0x200a) || u == 0x2028 || u == 0x2029 || u == 0x202f || u == 0x205f || u == 0x3000
}

/// The words of `s` that follow the word in progress `cur`: scanning left to
/// right, whitespace closes `cur` (dropping it when empty) and non-whitespace
/// extends it.
pub open spec fn words_acc(s: Seq<char>, cur: Seq<char>) -> Seq<Seq<char>>
    decreases s.len(),
{
    if s.len() == 0 {
        if cur.len() == 0 {
            Seq::empty()
        } else {
            seq![cur]
        }
    } else if is_wspace(s[0]) {
        if cur.len() == 0 {
            words_acc(s.drop_first(), Seq::empty())
        } else {
            seq![cur] + words_acc(s.drop_first(), Seq::empty())
        }
    } else {
        words_acc(s.drop_first(), cur.push(s[0]))
    }
}

/// The words of `s`: its maximal runs of non-whitespace characters, in order.
pub open spec fn words_of(s: Seq<char>) -> Seq<Seq<char>> {
    words_acc(s, Seq::empty())
}

/// The views of a sequence of strings.
pub open spec fn views_of(ss: Seq<String>) -> Seq<Seq<char>> {
    ss.map_values(|s: String| s@)
}

/// Splits `s` into its whitespace-separated words.
pub fn split_words(s: &str) -> (r: Vec<String>)
    ensures
        views_of(r@) == words_of(s@),
{
    let n = s.unicode_len();
    let mut out: Vec<String> = Vec::new();
    let mut start: usize = 0;
    let mut i: usize = 0;
    proof {
        assert(s@.skip(0) =~= s@);
        assert(s@.subrange(0, 0) =~= Seq::<char>::empty());
    }
    while i < n
        invariant
            start <= i <= n,
            n == s@.len(),
            forall|k: int| start <= k < i ==> !is_wspace(s@[k]),
            views_of(out@) + words_acc(s@.skip(i as int), s@.subrange(start as int, i as int))
                =~= words_of(s@),
        decreases n - i,
    {
        let c = s.get_char(i);
        proof {
            assert(s@.skip(i as int)[0] == s@[i as int]);
            assert(s@.skip(i as int).drop_first() =~= s@.skip(i as int + 1));
        }
        if wspace_char(c) {
            if start < i {
                let w = s.substring_char(start, i);
                let ghost old_out = out@;
                out.push(w.to_owned());
                proof {
                    assert(views_of(out@) =~= views_of(old_out).push(
                        s@.subrange(start as int, i as int),
                    ));
                    assert(views_of(out@) + words_acc(s@.skip(i as int + 1), Seq::empty())
                        =~= views_of(old_out) + (seq![s@.subrange(start as int, i as int)]
                        + words_acc(s@.skip(i as int + 1), Seq::empty())));
                }
            }
            proof {
                assert(s@.subrange(start as int, i as int).len() == 0 ==> s@.subrange(
                    start as int,
                    i as int,
                ) =~= Seq::<char>::empty());
                assert(s@.subrange(i as int + 1, i as int + 1) =~= Seq::<char>::empty());
            }
            start = i + 1;
        } else {
            proof {
                assert(s@.subrange(start as int, i as int).push(s@[i as int]) =~= s@.subrange(
                    start as int,
                    i as int + 1,
                ));
            }
        }
        i = i + 1;
    }
    proof {
        assert(s@.skip(n as int).len() == 0);
    }
    if start < n {
        let w = s.substring_char(start, n);
        let ghost old_out = out@;
        out.push(w.to_owned());
        proof {
            assert(views_of(out@) =~= views_of(old_out).push(s@.subrange(start as int, n as int)));
            assert(views_of(out@) =~= views_of(old_out) + seq![s@.subrange(start as int, n as int)]);
        }
    }
    out
}

/// `s` with its leading whitespace removed.
pub open spec fn trim_start_spec(s: Seq<char>) -> Seq<char>
    decreases s.len(),
{
    if s.len() == 0 {
        s
    } else if is_uni_space(s[0]) {
        trim_start_spec(s.drop_first())
    } else {
        s
    }
}

/// `s` with its trailing whitespace removed.
pub open spec fn trim_end_spec(s: Seq<char>) -> Seq<char>
    decreases s.len(),
{
    if s.len() == 0 {
        s
    } else if is_uni_space(s.last()) {
        trim_end_spec(s.drop_last())
    } else {
        s
    }
}

/// `s` with leading and trailing whitespace removed.
pub open spec fn trim_spec(s: Seq<char>) -> Seq<char> {
    trim_end_spec(trim_start_spec(s))
}

/// Removes leading and trailing whitespace.
pub fn trim(s: &str) -> (r: &str)
    ensures
        r@ == trim_spec(s@),
{
    let n = s.unicode_len();
    let mut a: usize = 0;
    proof {
        assert(s@.skip(0) =~= s@);
    }
    while a < n && uni_space_char(s.get_char(a))
        invariant
            a <= n,
            n == s@.len(),
            trim_start_spec(s@) == trim_start_spec(s@.skip(a as int)),
        decreases n - a,
    {
        proof {
            assert(s@.skip(a as int)[0] == s@[a as int]);
            assert(s@.skip(a as int).drop_first() =~= s@.skip(a as int + 1));
        }
        a = a + 1;
    }
    proof {
        assert(trim_start_spec(s@) == s@.subrange(a as int, n as int)) by {
            assert(s@.skip(a as int) =~= s@.subrange(a as int, n as int));
        }
    }
    let mut b: usize = n;
    while b > a && uni_space_char(s.get_char(b - 1))
        invariant
            a <= b <= n,
            n == s@.len(),
            trim_start_spec(s@) == s@.subrange(a as int, n as int),
            trim_end_spec(s@.subrange(a as int, n as int)) == trim_end_spec(
                s@.subrange(a as int, b as int),
            ),
        decreases b,
    {
        proof {
            assert(s@.subrange(a as int, b as int).last() == s@[b as int - 1]);
            assert(s@.subrange(a as int, b as int).drop_last() =~= s@.subrange(
                a as int,
                b as int - 1,
            ));
        }
        b = b - 1;
    }
    s.substring_char(a, b)
}

/// The position of the last space character of `s`, or -1 when `s` has none.
pub open spec fn last_space(s: Seq<char>) -> int
    decreases s.len(),
{
    if s.len() == 0 {
        -1
    } else if s.last() == ' ' {
        s.len() - 1
    } else {
        last_space(s.drop_last())
    }
}

/// What `last_space` finds: a space with no later space, or no space at all.
pub proof fn lemma_last_space(s: Seq<char>)
    ensures
        last_space(s) == -1 ==> forall|j: int| 0 <= j < s.len() ==> s[j] != ' ',
        last_space(s) != -1 ==> 0 <= last_space(s) < s.len() && s[last_space(s)] == ' ' && forall|
            j: int,
        | last_space(s) < j < s.len() ==> s[j] != ' ',
    decreases s.len(),
{
    if s.len() > 0 && s.last() != ' ' {
        lemma_last_space(s.drop_last());
        let d = s.drop_last();
        if last_space(s) == -1 {
            assert forall|j: int| 0 <= j < s.len() implies s[j] != ' ' by {
                if j < s.len() - 1 {
                    assert(s[j] == d[j]);
                } else {
                    assert(s[j] == s.last());
                }
            }
        } else {
            let l = last_space(s);
            assert(s[l] == d[l]);
            assert forall|j: int| l < j < s.len() implies s[j] != ' ' by {
                if j < s.len() - 1 {
                    assert(s[j] == d[j]);
                } else {
                    assert(s[j] == s.last());
                }
            }
        }
    }
}

/// The characters of `s`, as a vector.
pub fn chars_of(s: &str) -> (r: Vec<char>)
    ensures
        r@ == s@,
{
    let n = s.unicode_len();
    let mut v: Vec<char> = Vec::new();
    let mut i: usize = 0;
    while i < n
        invariant
            i <= n,
            n == s@.len(),
            v@ =~= s@.subrange(0, i as int),
        decreases n - i,
    {
        v.push(s.get_char(i));
        i = i + 1;
    }
    proof {
        assert(s@.subrange(0, n as int) =~= s@);
    }
    v
}

/// The position of the last space of `v`, if any.
pub fn find_last_space(v: &Vec<char>) -> (r: Option<usize>)
    ensures
        match r {
            Some(i) => last_space(v@) == i as int,
            None => last_space(v@) == -1,
        },
{
    proof {
        lemma_last_space(v@);
    }
    let n = v.len();
    let mut j: usize = n;
    while j > 0
        invariant
            j <= n,
            n == v@.len(),
            forall|q: int| j <= q < n ==> v@[q] != ' ',
        decreases j,
    {
        if v[j - 1] == ' ' {
            proof {
                lemma_last_space(v@);
                let l = last_space(v@);
                if l != j - 1 {
                    assert(v@[j - 1] != ' ');
                }
            }
            return Some(j - 1);
        }
        j = j - 1;
    }
    None
}

/// The length of the scheme prefix (`http://`, `https://` or `ftp://`) that
/// opens `s`, or 0 when none does.
pub open spec fn url_scheme_len(s: Seq<char>) -> int {
    if s.len() >= 8 && s[0] == 'h' && s[1] == 't' && s[2] == 't' && s[3] == 'p' && s[4] == 's'
        && s[5] == ':' && s[6] == '/' && s[7] == '/' {
        8
    } else if s.len() >= 7 && s[0] == 'h' && s[1] == 't' && s[2] == 't' && s[3] == 'p' && s[4]
        == ':' && s[5] == '/' && s[6] == '/' {
        7
    } else if s.len() >= 6 && s[0] == 'f' && s[1] == 't' && s[2] == 'p' && s[3] == ':' && s[4]
        == '/' && s[5] == '/' {
        6
    } else {
        0
    }
}

/// Whether `s` is a URL token: a scheme prefix, then a host-opening character
/// that is neither whitespace nor one of `/$.?#`, then one more character that
/// is not a newline, then any run of non-whitespace characters.
pub open spec fn is_url(s: Seq<char>) -> bool {
    let k = url_scheme_len(s);
    k > 0 && s.len() >= k + 2 && !is_uni_space(s[k]) && s[k] != '/' && s[k] != '$' && s[k] != '.'
        && s[k] != '?' && s[k] != '#' && s[k + 1] != '\n' && (forall|j: int|
        k + 2 <= j < s.len() ==> !is_uni_space(#[trigger] s[j]))
}

/// Decides whether `s` is a URL token.
pub fn url_token(s: &str) -> (r: bool)
    ensures
        r == is_url(s@),
{
    let v = chars_of(s);
    let n = v.len();
    let k: usize = if n >= 8 && v[0] == 'h' && v[1] == 't' && v[2] == 't' && v[3] == 'p' && v[4]
        == 's' && v[5] == ':' && v[6] == '/' && v[7] == '/' {
        8
    } else if n >= 7 && v[0] == 'h' && v[1] == 't' && v[2] == 't' && v[3] == 'p' && v[4] == ':'
        && v[5] == '/' && v[6] == '/' {
        7
    } else if n >= 6 && v[0] == 'f' && v[1] == 't' && v[2] == 'p' && v[3] == ':' && v[4] == '/'
        && v[5] == '/' {
        6
    } else {
        0
    };
    proof {
        assert(k as int == url_scheme_len(s@));
    }
    if k == 0 || n < k + 2 {
        return false;
    }
    let c0 = v[k];
    if uni_space_char(c0) || c0 == '/' || c0 == '$' || c0 == '.' || c0 == '?' || c0 == '#' {
        return false;
    }
    if v[k + 1] == '\n' {
        return false;
    }
    let mut j: usize = k + 2;
    while j < n
        invariant
            k + 2 <= j <= n,
            n == v@.len(),
            v@ == s@,
            k as int == url_scheme_len(s@),
            is_url(s@) <==> forall|q: int| k + 2 <= q < s@.len() ==> !is_uni_space(#[trigger] s@[q]),
            forall|q: int| k + 2 <= q < j ==> !is_uni_space(#[trigger] v@[q]),
        decreases n - j,
    {
        if uni_space_char(v[j]) {
            return false;
        }
        j = j + 1;
    }
    true
}

/// Whether `pat` occurs in `text` as a contiguous run of characters.
pub open spec fn is_substring(pat: Seq<char>, text: Seq<char>) -> bool {
    exists|i: int|
        0 <= i <= text.len() - pat.len() && #[trigger] text.subrange(i, i + pat.len()) == pat
}

/// Whether `pat` matches `text` starting at position `i`.
fn match_at(text: &Vec<char>, pat: &Vec<char>, i: usize) -> (r: bool)
    requires
        i + pat@.len() <= text@.len(),
    ensures
        r == (text@.subrange(i as int, i as int + pat@.len() as int) == pat@),
{
    let n = text.len();
    let m = pat.len();
    let mut j: usize = 0;
    while j < m
        invariant
            j <= m,
            m == pat@.len(),
            n == text@.len(),
            i + m <= n,
            forall|q: int| 0 <= q < j ==> text@[i + q] == pat@[q],
        decreases m - j,
    {
        if text[i + j] != pat[j] {
            proof {
                assert(text@.subrange(i as int, i as int + m as int)[j as int] == text@[i as int
                    + j as int]);
            }
            return false;
        }
        j = j + 1;
    }
    proof {
        assert(text@.subrange(i as int, i as int + m as int) =~= pat@);
    }
    true
}

/// Decides whether `pat` occurs in `text` as a substring.
pub fn contains_sub(text: &Vec<char>, pat: &Vec<char>) -> (r: bool)
    ensures
        r == is_substring(pat@, text@),
{
    let n = text.len();
    let m = pat.len();
    if m > n {
        return false;
    }
    if m == 0 {
        proof {
            assert(text@.subrange(0, 0 + pat@.len() as int) =~= pat@);
            assert(is_substring(pat@, text@));
        }
        return true;
    }
    let mut i: usize = 0;
    while i <= n - m
        invariant
            1 <= m <= n,
            n == text@.len(),
            m == pat@.len(),
            i <= n - m + 1,
            forall|q: int| 0 <= q < i ==> #[trigger] text@.subrange(q, q + m as int) != pat@,
        decreases n - m - i + 1,
    {
        if match_at(text, pat, i) {
            return true;
        }
        i = i + 1;
    }
    false
}

/// The character of the decimal digit `d`.
pub open spec fn digit_char(d: nat) -> char {
    if d == 0 {
        '0'
    } else if d == 1 {
        '1'
    } else if d == 2 {
        '2'
    } else if d == 3 {
        '3'
    } else if d == 4 {
        '4'
    } else if d == 5 {
        '5'
    } else if d == 6 {
        '6'
    } else if d == 7 {
        '7'
    } else if d == 8 {
        '8'
    } else {
        '9'
    }
}

/// The decimal digits of `n`, most significant first; empty for 0.
pub open spec fn dec_rec(n: nat) -> Seq<char>
    decreases n,
{
    if n == 0 {
        Seq::empty()
    } else {
        dec_rec(n / 10).push(digit_char(n % 10))
    }
}

/// The decimal rendering of `n`.
pub open spec fn dec_digits(n: nat) -> Seq<char> {
    if n == 0 {
        seq!['0']
    } else {
        dec_rec(n)
    }
}

/// The decimal rendering of `n`, left-padded with `0` to two characters.
pub open spec fn padded_ordinal(n: nat) -> Seq<char> {
    if n < 10 {
        seq!['0'] + dec_digits(n)
    } else {
        dec_digits(n)
    }
}

/// The digit characters of `ds` in reverse order, least significant digit
/// last.
spec fn rev_digit_chars(ds: Seq<usize>) -> Seq<char>
    decreases ds.len(),
{
    if ds.len() == 0 {
        Seq::empty()
    } else {
        seq![digit_char(ds.last() as nat)] + rev_digit_chars(ds.drop_last())
    }
}

/// Appends the character of the digit `d` to `out`.
fn push_digit(out: &mut String, d: usize)
    requires
        d < 10,
    ensures
        final(out)@ == old(out)@.push(digit_char(d as nat)),
{
    let ghost prev = old(out)@;
    if d == 0 {
        proof {
            reveal_strlit("0");
        }
        out.append("0");
    } else if d == 1 {
        proof {
            reveal_strlit("1");
        }
        out.append("1");
    } else if d == 2 {
        proof {
            reveal_strlit("2");
        }
        out.append("2");
    } else if d == 3 {
        proof {
            reveal_strlit("3");
        }
        out.append("3");
    } else if d == 4 {
        proof {
            reveal_strlit("4");
        }
        out.append("4");
    } else if d == 5 {
        proof {
            reveal_strlit("5");
        }
        out.append("5");
    } else if d == 6 {
        proof {
            reveal_strlit("6");
        }
        out.append("6");
    } else if d == 7 {
        proof {
            reveal_strlit("7");
        }
        out.append("7");
    } else if d == 8 {
        proof {
            reveal_strlit("8");
        }
        out.append("8");
    } else {
        proof {
            reveal_strlit("9");
        }
        out.append("9");
    }
    proof {
        assert(out@ =~= prev.push(digit_char(d as nat)));
    }
}

/// Renders `n` in decimal.
pub fn dec_string(n: usize) -> (r: String)
    ensures
        r@ == dec_digits(n as nat),
{
    let mut out = String::new();
    if n == 0 {
        push_digit(&mut out, 0);
        proof {
            assert(Seq::<char>::empty().push('0') =~= seq!['0']);
        }
        return out;
    }
    let mut digs: Vec<usize> = Vec::new();
    let mut m = n;
    while m > 0
        invariant
            forall|q: int| 0 <= q < digs@.len() ==> #[trigger] digs@[q] < 10,
            dec_rec(m as nat) + rev_digit_chars(digs@) =~= dec_rec(n as nat),
        decreases m,
    {
        let d = m % 10;
        let ghost prev = digs@;
        digs.push(d);
        proof {
            assert(digs@.last() == d);
            assert(digs@.drop_last() =~= prev);
            assert(rev_digit_chars(digs@) =~= seq![digit_char(d as nat)] + rev_digit_chars(prev));
            assert(dec_rec((m / 10) as nat) + rev_digit_chars(digs@) =~= dec_rec((m / 10) as nat).push(
                digit_char((m % 10) as nat),
            ) + rev_digit_chars(prev));
        }
        m = m / 10;
    }
    let mut idx = digs.len();
    proof {
        assert(digs@.take(idx as int) =~= digs@);
    }
    while idx > 0
        invariant
            idx <= digs@.len(),
            forall|q: int| 0 <= q < digs@.len() ==> #[trigger] digs@[q] < 10,
            out@ + rev_digit_chars(digs@.take(idx as int)) =~= rev_digit_chars(digs@),
            rev_digit_chars(digs@) == dec_rec(n as nat),
        decreases idx,
    {
        let ghost prev = out@;
        let d = digs[idx - 1];
        push_digit(&mut out, d);
        proof {
            assert(digs@.take(idx as int).last() == d);
            assert(digs@.take(idx as int).drop_last() =~= digs@.take(idx as int - 1));
            assert(rev_digit_chars(digs@.take(idx as int)) =~= seq![digit_char(d as nat)]
                + rev_digit_chars(digs@.take(idx as int - 1)));
            assert(out@ + rev_digit_chars(digs@.take(idx as int - 1)) =~= prev + rev_digit_chars(
                digs@.take(idx as int),
            ));
        }
        idx = idx - 1;
    }
    proof {
        assert(digs@.take(0) =~= Seq::<usize>::empty());
        assert(out@ =~= out@ + rev_digit_chars(digs@.take(0)));
    }
    out
}

/// Renders the ordinal `n` as at least two decimal characters, left-padded
/// with `0`.
pub fn ordinal_string(n: usize) -> (r: String)
    ensures
        r@ == padded_ordinal(n as nat),
{
    if n < 10 {
        proof {
            reveal_strlit("0");
        }
        let mut out = String::from_str("0");
        push_digit(&mut out, n);
        proof {
            assert(dec_rec(0) == Seq::<char>::empty());
            if n != 0 {
                assert(n as nat / 10 == 0);
                assert(n as nat % 10 == n as nat);
                assert(dec_rec(n as nat) =~= Seq::<char>::empty().push(digit_char(n as nat)));
            }
            assert(out@ =~= seq!['0'] + dec_digits(n as nat));
        }
        out
    } else {
        dec_string(n)
    }
}

/// Decides whether `v` holds the character `c`.
pub fn contains_char(v: &Vec<char>, c: char) -> (r: bool)
    ensures
        r == v@.contains(c),
{
    let n = v.len();
    let mut i: usize = 0;
    while i < n
        invariant
            i <= n,
            n == v@.len(),
            forall|q: int| 0 <= q < i ==> v@[q] != c,
        decreases n - i,
    {
        if v[i] == c {
            return true;
        }
        i = i + 1;
    }
    false
}

} // verus!
