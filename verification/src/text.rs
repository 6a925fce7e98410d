use vstd::prelude::*;

verus! {

/// Unicode white space (the `White_Space` property), the characters that
/// separate the words of a command line.
pub open spec fn is_space_spec(c: char) -> bool {
    ||| '\u{9}' <= c <= '\u{d}'
    ||| c == ' '
    ||| c == '\u{85}'
    ||| c == '\u{a0}'
    ||| c == '\u{1680}'
    ||| '\u{2000}' <= c <= '\u{200a}'
    ||| c == '\u{2028}'
    ||| c == '\u{2029}'
    ||| c == '\u{202f}'
    ||| c == '\u{205f}'
    ||| c == '\u{3000}'
}

/// Whether `c` is Unicode white space.
pub fn is_space(c: char) -> (b: bool)
    ensures
        b == is_space_spec(c),
{
    ('\u{9}' <= c && c <= '\u{d}') || c == ' ' || c == '\u{85}' || c == '\u{a0}' || c
        == '\u{1680}' || ('\u{2000}' <= c && c <= '\u{200a}') || c == '\u{2028}' || c
        == '\u{2029}' || c == '\u{202f}' || c == '\u{205f}' || c == '\u{3000}'
}

/// The words of `s`: its maximal runs of characters that are not white space,
/// in order.
pub open spec fn words(s: Seq<char>) -> Seq<Seq<char>>
    decreases s.len(),
{
    if s.len() == 0 {
        Seq::empty()
    } else {
        let w = words(s.drop_last());
        let c = s.last();
        if is_space_spec(c) {
            w
        } else if s.len() >= 2 && !is_space_spec(s[s.len() - 2]) {
            w.update(w.len() - 1, w.last().push(c))
        } else {
            w.push(seq![c])
        }
    }
}

/// A sequence ending in a character that is not white space has at least one
/// word.
proof fn lemma_words_nonempty(s: Seq<char>)
    requires
        s.len() > 0,
        !is_space_spec(s.last()),
    ensures
        words(s).len() > 0,
    decreases s.len(),
{
    if s.len() >= 2 && !is_space_spec(s[s.len() - 2]) {
        lemma_words_nonempty(s.drop_last());
    }
}

/// Splits `line` into its words, as `str::split_whitespace` does.
pub fn split_words(line: &[char]) -> (ws: Vec<Vec<char>>)
    ensures
        ws@.map_values(|w: Vec<char>| w@) == words(line@),
{
    let mut out: Vec<Vec<char>> = Vec::new();
    let mut cur: Vec<char> = Vec::new();
    let mut i: usize = 0;
    while i < line.len()
        invariant
            i <= line.len(),
            cur@.len() > 0 <==> (i > 0 && !is_space_spec(line@[i - 1])),
            cur@.len() == 0 ==> out@.map_values(|w: Vec<char>| w@) == words(line@.take(i as int)),
            cur@.len() > 0 ==> out@.map_values(|w: Vec<char>| w@).push(cur@) == words(
                line@.take(i as int),
            ),
        decreases line.len() - i,
    {
        let c = line[i];
        let ghost prev = line@.take(i as int);
        let ghost next = line@.take(i as int + 1);
        assert(next.drop_last() =~= prev);
        assert(next.last() == c);
        if is_space(c) {
            if cur.len() > 0 {
                let done = cur;
                cur = Vec::new();
                let ghost before = out@;
                out.push(done);
                proof {
                    assert(out@.map_values(|w: Vec<char>| w@) =~= before.map_values(
                        |w: Vec<char>| w@,
                    ).push(done@));
                }
            }
        } else {
            if i > 0 && !is_space(line[i - 1]) {
                proof {
                    assert(next[next.len() - 2] == line@[i - 1]);
                    lemma_words_nonempty(prev);
                    let w = words(prev);
                    assert(w.update(w.len() - 1, w.last().push(c)) =~= out@.map_values(
                        |w: Vec<char>| w@,
                    ).push(cur@.push(c)));
                }
                cur.push(c);
            } else {
                cur.push(c);
                proof {
                    assert(cur@ =~= seq![c]);
                }
            }
        }
        i = i + 1;
    }
    proof {
        assert(line@.take(line.len() as int) =~= line@);
    }
    if cur.len() > 0 {
        let ghost before = out@;
        let ghost last = cur@;
        out.push(cur);
        proof {
            assert(out@.map_values(|w: Vec<char>| w@) =~= before.map_values(
                |w: Vec<char>| w@,
            ).push(last));
        }
    }
    out
}


/// Every word is a nonempty run of characters none of which is white space.
pub proof fn lemma_words_are_runs(s: Seq<char>)
    ensures
        forall|k: int| 0 <= k < words(s).len() ==> #[trigger] words(s)[k].len() > 0,
        forall|k: int, j: int|
            0 <= k < words(s).len() && 0 <= j < words(s)[k].len() ==> !is_space_spec(
                #[trigger] words(s)[k][j],
            ),
    decreases s.len(),
{
    if s.len() > 0 {
        let w = words(s.drop_last());
        let c = s.last();
        lemma_words_are_runs(s.drop_last());
        if is_space_spec(c) {
            assert(words(s) == w);
        } else if s.len() >= 2 && !is_space_spec(s[s.len() - 2]) {
            lemma_words_nonempty(s.drop_last());
            let n = w.len() - 1;
            let r = words(s);
            assert(r == w.update(n, w.last().push(c)));
            assert forall|k: int| 0 <= k < r.len() implies #[trigger] r[k].len() > 0 by {
                if k != n {
                    assert(r[k] == w[k]);
                }
            }
            assert forall|k: int, j: int| 0 <= k < r.len() && 0 <= j < r[k].len() implies !is_space_spec(
                #[trigger] r[k][j],
            ) by {
                if k != n {
                    assert(r[k] == w[k]);
                } else if j < w[n].len() {
                    assert(r[k][j] == w[n][j]);
                }
            }
        } else {
            let r = words(s);
            assert(r == w.push(seq![c]));
            assert forall|k: int| 0 <= k < r.len() implies #[trigger] r[k].len() > 0 by {
                if k < w.len() {
                    assert(r[k] == w[k]);
                }
            }
            assert forall|k: int, j: int| 0 <= k < r.len() && 0 <= j < r[k].len() implies !is_space_spec(
                #[trigger] r[k][j],
            ) by {
                if k < w.len() {
                    assert(r[k] == w[k]);
                }
            }
        }
    }
}

/// Whether `a` and `b` hold the same characters.
pub fn same_chars(a: &[char], b: &[char]) -> (r: bool)
    ensures
        r == (a@ == b@),
{
    if a.len() != b.len() {
        return false;
    }
    let mut i: usize = 0;
    while i < a.len()
        invariant
            i <= a.len(),
            a.len() == b.len(),
            forall|j: int| 0 <= j < i ==> a@[j] == b@[j],
        decreases a.len() - i,
    {
        if a[i] != b[i] {
            return false;
        }
        i = i + 1;
    }
    assert(a@ =~= b@);
    true
}

/// The character of decimal digit `d`.
pub open spec fn digit_char(d: nat) -> char {
    seq!['0', '1', '2', '3', '4', '5', '6', '7', '8', '9'][d as int]
}

/// The decimal numeral of `n`, without leading zeros.
pub open spec fn decimal(n: nat) -> Seq<char>
    decreases n,
{
    if n < 10 {
        seq![digit_char(n)]
    } else {
        decimal(n / 10).push(digit_char(n % 10))
    }
}

/// Writes `n` in decimal.
pub fn format_decimal(n: u64) -> (r: Vec<char>)
    ensures
        r@ == decimal(n as nat),
    decreases n,
{
    let digits = ['0', '1', '2', '3', '4', '5', '6', '7', '8', '9'];
    assert(digits@ == seq!['0', '1', '2', '3', '4', '5', '6', '7', '8', '9']);
    if n < 10 {
        let mut r = Vec::new();
        r.push(digits[n as usize]);
        proof {
            assert(r@ =~= seq![digit_char(n as nat)]);
        }
        r
    } else {
        let mut r = format_decimal(n / 10);
        r.push(digits[(n % 10) as usize]);
        r
    }
}

/// `s` padded on the left with spaces to at least `width` characters, as
/// `format!("{:>width$}", s)` does.
pub open spec fn pad_left(s: Seq<char>, width: nat) -> Seq<char> {
    if s.len() >= width {
        s
    } else {
        Seq::new((width - s.len()) as nat, |i: int| ' ') + s
    }
}

/// Pads `s` on the left with spaces to at least `width` characters.
pub fn pad_left_exec(s: &[char], width: usize) -> (r: Vec<char>)
    ensures
        r@ == pad_left(s@, width as nat),
        r@.len() == if s@.len() >= width {
            s@.len()
        } else {
            width as nat
        },
        r@.subrange(r@.len() - s@.len(), r@.len() as int) == s@,
        forall|i: int| 0 <= i < r@.len() - s@.len() ==> r@[i] == ' ',
{
    proof {
        lemma_pad_left_right_aligns(s@, width as nat);
    }
    let mut r: Vec<char> = Vec::new();
    if s.len() < width {
        let fill = width - s.len();
        let mut i: usize = 0;
        while i < fill
            invariant
                i <= fill,
                r@ == Seq::new(i as nat, |k: int| ' '),
            decreases fill - i,
        {
            r.push(' ');
            i = i + 1;
            proof {
                assert(r@ =~= Seq::new(i as nat, |k: int| ' '));
            }
        }
    }
    let ghost fill_part = r@;
    let mut j: usize = 0;
    while j < s.len()
        invariant
            j <= s.len(),
            r@ == fill_part + s@.take(j as int),
        decreases s.len() - j,
    {
        r.push(s[j]);
        j = j + 1;
        proof {
            assert(r@ =~= fill_part + s@.take(j as int));
        }
    }
    proof {
        assert(s@.take(s.len() as int) =~= s@);
        if s.len() >= width {
            assert(fill_part =~= Seq::<char>::empty());
            assert(r@ =~= s@);
        }
    }
    r
}

/// The words of `ws` joined by single spaces.
pub open spec fn join_words(ws: Seq<Seq<char>>) -> Seq<char>
    decreases ws.len(),
{
    if ws.len() == 0 {
        Seq::empty()
    } else if ws.len() == 1 {
        ws[0]
    } else {
        join_words(ws.drop_last()) + seq![' '] + ws.last()
    }
}

/// Joins `ws` with single spaces, as `Vec<String>::join(" ")` does.
pub fn join_with_spaces(ws: &Vec<Vec<char>>) -> (r: Vec<char>)
    ensures
        r@ == join_words(ws@.map_values(|w: Vec<char>| w@)),
{
    let ghost m = ws@.map_values(|w: Vec<char>| w@);
    let mut r: Vec<char> = Vec::new();
    let mut i: usize = 0;
    while i < ws.len()
        invariant
            i <= ws.len(),
            m == ws@.map_values(|w: Vec<char>| w@),
            r@ == join_words(m.take(i as int)),
        decreases ws.len() - i,
    {
        assert(m.take(i as int + 1).drop_last() =~= m.take(i as int));
        if i > 0 {
            r.push(' ');
        }
        let w = &ws[i];
        let ghost before = r@;
        let mut j: usize = 0;
        while j < w.len()
            invariant
                j <= w.len(),
                r@ == before + w@.take(j as int),
            decreases w.len() - j,
        {
            r.push(w[j]);
            j = j + 1;
            proof {
                assert(r@ =~= before + w@.take(j as int));
            }
        }
        proof {
            assert(w@.take(w.len() as int) =~= w@);
            assert(m.take(i as int + 1).last() == w@);
            if i == 0 {
                assert(r@ =~= m.take(1)[0]);
            }
        }
        i = i + 1;
    }
    proof {
        assert(m.take(ws.len() as int) =~= m);
    }
    r
}


/// `c` is one of the digits `0` to `9`.
pub open spec fn is_digit(c: char) -> bool {
    '0' <= c <= '9'
}

/// Every character of `s` is a digit.
pub open spec fn all_digits(s: Seq<char>) -> bool {
    forall|i: int| 0 <= i < s.len() ==> is_digit(#[trigger] s[i])
}

/// The number that the digits `s` write in decimal.
pub open spec fn digits_value(s: Seq<char>) -> int
    decreases s.len(),
{
    if s.len() == 0 {
        0
    } else {
        digits_value(s.drop_last()) * 10 + (s.last() as int - '0' as int)
    }
}

/// What `str::parse::<i32>` gives for `s`: an optional sign `+` or `-`, then
/// one or more digits, whose value fits in an `i32`.
pub open spec fn parse_i32_spec(s: Seq<char>) -> Option<i32> {
    let neg = s.len() > 0 && s[0] == '-';
    let body = if s.len() > 0 && (s[0] == '-' || s[0] == '+') {
        s.drop_first()
    } else {
        s
    };
    let v = if neg {
        -digits_value(body)
    } else {
        digits_value(body)
    };
    if body.len() == 0 || !all_digits(body) {
        None
    } else if i32::MIN <= v <= i32::MAX {
        Some(v as i32)
    } else {
        None
    }
}

/// The value of digits never falls as digits are added.
proof fn lemma_digits_value_grows(s: Seq<char>, i: int)
    requires
        all_digits(s),
        0 <= i <= s.len(),
    ensures
        0 <= digits_value(s.take(i)) <= digits_value(s),
    decreases s.len() - i,
{
    if i < s.len() {
        lemma_digits_value_grows(s, i + 1);
        assert(s.take(i + 1).drop_last() =~= s.take(i));
        assert(is_digit(s[i]));
        assert(digits_value(s.take(i + 1)) == digits_value(s.take(i)) * 10 + (s[i] as int
            - '0' as int));
    } else {
        assert(s.take(i) =~= s);
        lemma_digits_value_nonneg(s);
    }
}

proof fn lemma_digits_value_nonneg(s: Seq<char>)
    requires
        all_digits(s),
    ensures
        digits_value(s) >= 0,
    decreases s.len(),
{
    if s.len() > 0 {
        assert(all_digits(s.drop_last()));
        assert(is_digit(s.last()));
        lemma_digits_value_nonneg(s.drop_last());
    }
}

/// Reads a decimal `i32`, as `str::parse::<i32>` does.
pub fn parse_i32(s: &[char]) -> (r: Option<i32>)
    ensures
        r == parse_i32_spec(s@),
{
    let neg = s.len() > 0 && s[0] == '-';
    let start: usize = if s.len() > 0 && (s[0] == '-' || s[0] == '+') {
        1
    } else {
        0
    };
    let ghost body = if s@.len() > 0 && (s@[0] == '-' || s@[0] == '+') {
        s@.drop_first()
    } else {
        s@
    };
    assert(body =~= s@.subrange(start as int, s.len() as int));
    if start >= s.len() {
        return None;
    }
    let limit: i64 = if neg {
        2147483648
    } else {
        2147483647
    };
    let mut acc: i64 = 0;
    let mut i: usize = start;
    while i < s.len()
        invariant
            start <= i <= s.len(),
            start < s.len(),
            neg == (s@.len() > 0 && s@[0] == '-'),
            body == (if s@.len() > 0 && (s@[0] == '-' || s@[0] == '+') {
                s@.drop_first()
            } else {
                s@
            }),
            body == s@.subrange(start as int, s.len() as int),
            limit == (if neg {
                2147483648i64
            } else {
                2147483647i64
            }),
            all_digits(body.take(i - start)),
            acc == digits_value(body.take(i - start)),
            0 <= acc <= limit,
            limit == 2147483648 || limit == 2147483647,
        decreases s.len() - i,
    {
        let c = s[i];
        let ghost k = i - start;
        assert(body.take(k + 1).drop_last() =~= body.take(k));
        assert(body.take(k + 1).last() == c);
        if !('0' <= c && c <= '9') {
            assert(!is_digit(body[k]));
            return None;
        }
        let d = (c as u32 - '0' as u32) as i64;
        acc = acc * 10 + d;
        i = i + 1;
        assert(all_digits(body.take(i - start)));
        if acc > limit {
            proof {
                if all_digits(body) {
                    lemma_digits_value_grows(body, i - start);
                }
            }
            return None;
        }
    }
    proof {
        assert(body.take(i - start) =~= body);
    }
    let v = if neg {
        -acc
    } else {
        acc
    };
    Some(v as i32)
}


/// The decimal numeral of `n` is all digits, and its value is `n`.
pub proof fn lemma_decimal_value(n: nat)
    ensures
        all_digits(decimal(n)),
        decimal(n).len() > 0,
        digits_value(decimal(n)) == n,
    decreases n,
{
    let table = seq!['0', '1', '2', '3', '4', '5', '6', '7', '8', '9'];
    assert(forall|d: int| 0 <= d < 10 ==> is_digit(#[trigger] table[d]) && table[d] as int
        - '0' as int == d);
    if n >= 10 {
        lemma_decimal_value(n / 10);
        let s = decimal(n);
        assert(s.drop_last() =~= decimal(n / 10));
        assert(s.last() == digit_char(n % 10));
        assert forall|i: int| 0 <= i < s.len() implies is_digit(#[trigger] s[i]) by {
            if i < s.len() - 1 {
                assert(s[i] == decimal(n / 10)[i]);
            }
        }
        assert(s.last() as int - '0' as int == n % 10);
        assert(digits_value(s) == (n / 10) as int * 10 + (n % 10) as int);
        assert((n / 10) as int * 10 + (n % 10) as int == n) by (nonlinear_arith);
    } else {
        let s = decimal(n);
        assert(s.drop_last() =~= Seq::<char>::empty());
        assert(digits_value(s.drop_last()) == 0);
        assert(s.last() as int - '0' as int == n);
        assert(digits_value(s) == digits_value(s.drop_last()) * 10 + (s.last() as int - '0' as int));
    }
}

/// Reading back what `format_decimal` writes gives the number again, for
/// every number that fits in an `i32`.
pub proof fn lemma_parse_reads_decimal(n: nat)
    requires
        n <= i32::MAX,
    ensures
        parse_i32_spec(decimal(n)) == Some(n as i32),
{
    lemma_decimal_value(n);
    let s = decimal(n);
    assert(is_digit(s[0]));
}


/// Padding right-aligns `s` in the full width: the result is as long as `s`
/// or `width`, whichever is more, ends with `s`, and every character before
/// `s` is a space.
pub proof fn lemma_pad_left_right_aligns(s: Seq<char>, width: nat)
    ensures
        pad_left(s, width).len() == if s.len() >= width {
            s.len()
        } else {
            width
        },
        pad_left(s, width).subrange(
            pad_left(s, width).len() - s.len(),
            pad_left(s, width).len() as int,
        ) == s,
        forall|i: int|
            0 <= i < pad_left(s, width).len() - s.len() ==> #[trigger] pad_left(s, width)[i] == ' ',
{
    let p = pad_left(s, width);
    assert(p.subrange(p.len() - s.len(), p.len() as int) =~= s);
}

} // verus!
