//! Character-level text utilities with their mathematical meaning.
use vstd::prelude::*;
use vstd::utf8::encode_utf8;

verus! {

/// Number of bytes in the UTF-8 encoding of `s` (what `str::len` returns).
pub open spec fn byte_len(s: Seq<char>) -> nat {
    encode_utf8(s).len()
}

/// The byte length of joined text is the sum of the byte lengths.
pub proof fn lemma_byte_len_add(a: Seq<char>, b: Seq<char>)
    ensures
        byte_len(a + b) == byte_len(a) + byte_len(b),
    decreases a.len(),
{
    if a.len() > 0 {
        assert((a + b).drop_first() =~= a.drop_first() + b);
        lemma_byte_len_add(a.drop_first(), b);
        assert(encode_utf8(a + b) =~= vstd::utf8::encode_scalar((a + b)[0] as u32) + encode_utf8((a + b).drop_first()));
    } else {
        assert(a + b =~= b);
    }
}

/// `s` repeated `n` times.
pub open spec fn repeat_seq(s: Seq<char>, n: nat) -> Seq<char>
    decreases n,
{
    if n == 0 {
        Seq::empty()
    } else {
        repeat_seq(s, (n - 1) as nat) + s
    }
}

/// The ASCII digit for `d < 10`.
pub open spec fn digit_char(d: nat) -> char {
    if d == 0 { '0' }
    else if d == 1 { '1' }
    else if d == 2 { '2' }
    else if d == 3 { '3' }
    else if d == 4 { '4' }
    else if d == 5 { '5' }
    else if d == 6 { '6' }
    else if d == 7 { '7' }
    else if d == 8 { '8' }
    else { '9' }
}

/// Decimal notation of `n`, without leading zeros.
pub open spec fn decimal(n: nat) -> Seq<char>
    decreases n,
{
    if n < 10 {
        seq![digit_char(n)]
    } else {
        decimal(n / 10).push(digit_char(n % 10))
    }
}

/// Unicode White_Space (the characters for which `char::is_whitespace` holds).
pub open spec fn is_white(c: char) -> bool {
    ||| ('\u{9}' <= c && c <= '\u{d}')
    ||| c == ' '
    ||| c == '\u{85}'
    ||| c == '\u{a0}'
    ||| c == '\u{1680}'
    ||| ('\u{2000}' <= c && c <= '\u{200a}')
    ||| c == '\u{2028}'
    ||| c == '\u{2029}'
    ||| c == '\u{202f}'
    ||| c == '\u{205f}'
    ||| c == '\u{3000}'
}

/// Number of maximal runs of non-white characters in `s`
/// (what `split_whitespace().count()` returns).
pub open spec fn word_count(s: Seq<char>) -> nat
    decreases s.len(),
{
    if s.len() == 0 {
        0
    } else {
        let n = s.len() as int;
        let starts_word = !is_white(s[n - 1]) && (n == 1 || is_white(s[n - 2]));
        word_count(s.drop_last()) + if starts_word { 1nat } else { 0nat }
    }
}

/// `s` without one trailing carriage return.
pub open spec fn strip_cr(s: Seq<char>) -> Seq<char> {
    if s.len() > 0 && s.last() == '\r' {
        s.drop_last()
    } else {
        s
    }
}

/// Splitting state after reading `s`: the finished lines and the line in progress.
pub open spec fn lines_acc(s: Seq<char>) -> (Seq<Seq<char>>, Seq<char>)
    decreases s.len(),
{
    if s.len() == 0 {
        (Seq::empty(), Seq::empty())
    } else {
        let (done, cur) = lines_acc(s.drop_last());
        if s.last() == '\n' {
            (done.push(strip_cr(cur)), Seq::empty())
        } else {
            (done, cur.push(s.last()))
        }
    }
}

/// The lines of `s` as `str::lines` yields them: split at `\n`, a `\r` before
/// the `\n` removed, and no empty line after a final `\n`.
pub open spec fn lines_of(s: Seq<char>) -> Seq<Seq<char>> {
    let (done, cur) = lines_acc(s);
    if cur.len() > 0 {
        done.push(cur)
    } else {
        done
    }
}

/// Appends one character to a string.
/// Trusted: `String::push` appends the character at the end of the string.
#[verifier::external_body]
pub(crate) fn push_char(s: &mut String, c: char)
    ensures
        final(s)@ == old(s)@.push(c),
{
    s.push(c);
}

/// The characters of `s`, in order.
pub fn chars_of(s: &str) -> (v: Vec<char>)
    ensures
        v@ == s@,
{
    let n = s.unicode_len();
    let mut v: Vec<char> = Vec::new();
    let mut i: usize = 0;
    while i < n
        invariant
            n == s@.len(),
            i <= n,
            v@ == s@.take(i as int),
        decreases n - i,
    {
        v.push(s.get_char(i));
        i = i + 1;
        assert(v@ =~= s@.take(i as int));
    }
    assert(v@ =~= s@);
    v
}

/// A string holding the characters `v[from..to]`.
pub fn string_from_chars(v: &Vec<char>, from: usize, to: usize) -> (s: String)
    requires
        from <= to <= v.len(),
    ensures
        s@ == v@.subrange(from as int, to as int),
{
    let mut s = String::new();
    let mut i = from;
    while i < to
        invariant
            from <= i <= to <= v.len(),
            s@ == v@.subrange(from as int, i as int),
        decreases to - i,
    {
        push_char(&mut s, v[i]);
        i = i + 1;
        assert(s@ =~= v@.subrange(from as int, i as int));
    }
    s
}

/// A copy of `s` as an owned string.
pub fn to_owned_string(s: &str) -> (r: String)
    ensures
        r@ == s@,
{
    s.to_owned()
}

/// Appends `t` to `s`.
pub fn push_str(s: &mut String, t: &str)
    ensures
        final(s)@ == old(s)@ + t@,
{
    s.append(t);
}

/// `s` repeated `n` times.
pub fn repeat_str(s: &str, n: usize) -> (r: String)
    ensures
        r@ == repeat_seq(s@, n as nat),
{
    let mut r = String::new();
    let mut i: usize = 0;
    while i < n
        invariant
            i <= n,
            r@ == repeat_seq(s@, i as nat),
        decreases n - i,
    {
        r.append(s);
        i = i + 1;
    }
    r
}

/// The decimal digit character for `d`.
fn digit(d: u64) -> (c: char)
    requires
        d < 10,
    ensures
        c == digit_char(d as nat),
{
    if d == 0 { '0' }
    else if d == 1 { '1' }
    else if d == 2 { '2' }
    else if d == 3 { '3' }
    else if d == 4 { '4' }
    else if d == 5 { '5' }
    else if d == 6 { '6' }
    else if d == 7 { '7' }
    else if d == 8 { '8' }
    else { '9' }
}

/// Decimal notation of `n` (what `n.to_string()` returns).
pub fn decimal_string(n: u64) -> (s: String)
    ensures
        s@ == decimal(n as nat),
    decreases n,
{
    if n < 10 {
        let mut s = String::new();
        push_char(&mut s, digit(n));
        assert(s@ =~= decimal(n as nat));
        s
    } else {
        let mut s = decimal_string(n / 10);
        push_char(&mut s, digit(n % 10));
        s
    }
}

/// Whether `c` is Unicode white space (what `char::is_whitespace` returns).
pub fn is_white_char(c: char) -> (b: bool)
    ensures
        b == is_white(c),
{
    ('\u{9}' <= c && c <= '\u{d}') || c == ' ' || c == '\u{85}' || c == '\u{a0}'
        || c == '\u{1680}' || ('\u{2000}' <= c && c <= '\u{200a}') || c == '\u{2028}'
        || c == '\u{2029}' || c == '\u{202f}' || c == '\u{205f}' || c == '\u{3000}'
}

/// Number of white-space separated words in `s`.
pub fn count_words(s: &str) -> (n: usize)
    ensures
        n as nat == word_count(s@),
{
    let v = chars_of(s);
    let mut n: usize = 0;
    let mut i: usize = 0;
    let mut prev_white = true;
    while i < v.len()
        invariant
            v@ == s@,
            i <= v.len(),
            n as nat == word_count(v@.take(i as int)),
            n <= i,
            prev_white == (i == 0 || is_white(v@[i - 1])),
        decreases v.len() - i,
    {
        let w = is_white_char(v[i]);
        assert(v@.take(i + 1).drop_last() =~= v@.take(i as int));
        if !w && prev_white {
            n = n + 1;
        }
        prev_white = w;
        i = i + 1;
    }
    assert(v@.take(i as int) =~= v@);
    n
}

/// Byte length of the UTF-8 encoding of `s`.
pub fn utf8_len(s: &str) -> (n: usize)
    ensures
        n as nat == byte_len(s@),
{
    s.as_bytes().len()
}

/// The lines of `s`, as `str::lines` yields them.
pub fn split_lines(s: &str) -> (r: Vec<String>)
    ensures
        r@.len() == lines_of(s@).len(),
        forall|k: int| 0 <= k < r@.len() ==> #[trigger] r@[k]@ == lines_of(s@)[k],
{
    let v = chars_of(s);
    let mut done: Vec<String> = Vec::new();
    let mut cur_start: usize = 0;
    let mut i: usize = 0;
    while i < v.len()
        invariant
            v@ == s@,
            cur_start <= i <= v.len(),
            done@.len() == lines_acc(v@.take(i as int)).0.len(),
            forall|k: int| 0 <= k < done@.len() ==> #[trigger] done@[k]@
                == lines_acc(v@.take(i as int)).0[k],
            lines_acc(v@.take(i as int)).1 == v@.subrange(cur_start as int, i as int),
        decreases v.len() - i,
    {
        assert(v@.take(i + 1).drop_last() =~= v@.take(i as int));
        assert(v@.take(i + 1).last() == v@[i as int]);
        if v[i] == '\n' {
            let mut end = i;
            if end > cur_start && v[end - 1] == '\r' {
                end = end - 1;
            }
            let line = string_from_chars(&v, cur_start, end);
            assert(line@ =~= strip_cr(v@.subrange(cur_start as int, i as int)));
            done.push(line);
            cur_start = i + 1;
        }
        i = i + 1;
        assert(lines_acc(v@.take(i as int)).1 =~= v@.subrange(cur_start as int, i as int));
    }
    assert(v@.take(i as int) =~= v@);
    if cur_start < v.len() {
        let line = string_from_chars(&v, cur_start, v.len());
        done.push(line);
    }
    done
}


/// The byte positions that start a character: `a` is the byte length of the
/// first `i` characters.
pub open spec fn is_cut(s: Seq<char>, a: nat, i: int) -> bool {
    0 <= i <= s.len() && byte_len(s.take(i)) == a
}

/// The character index at byte position `a`, when `a` starts a character (or is the end).
pub open spec fn cut_index(s: Seq<char>, a: nat) -> Option<int> {
    if exists|i: int| is_cut(s, a, i) {
        Some(choose|i: int| is_cut(s, a, i))
    } else {
        None
    }
}

/// The characters between byte positions `a` and `b` (what `&s[a..b]`
/// holds); `None` when either position falls inside a character or past the end.
pub open spec fn byte_slice(s: Seq<char>, a: nat, b: nat) -> Option<Seq<char>> {
    match (cut_index(s, a), cut_index(s, b)) {
        (Some(i), Some(j)) => Some(s.subrange(i, j)),
        _ => None,
    }
}

/// A character takes one to four bytes.
pub proof fn lemma_char_width(c: char)
    ensures
        1 <= byte_len(seq![c]) <= 4,
{
    vstd::utf8::char_is_scalar(c);
    assert(encode_utf8(seq![c]) =~= vstd::utf8::encode_scalar(c as u32) + encode_utf8(seq![c].drop_first()));
    assert(seq![c].drop_first() =~= Seq::<char>::empty());
}

/// One more character adds its width.
pub proof fn lemma_take_succ(s: Seq<char>, i: int)
    requires
        0 <= i < s.len(),
    ensures
        byte_len(s.take(i + 1)) == byte_len(s.take(i)) + byte_len(seq![s[i]]),
{
    assert(s.take(i + 1) =~= s.take(i) + seq![s[i]]);
    lemma_byte_len_add(s.take(i), seq![s[i]]);
}

/// Longer prefixes take more bytes.
pub proof fn lemma_take_mono(s: Seq<char>, i: int, j: int)
    requires
        0 <= i <= j <= s.len(),
    ensures
        byte_len(s.take(i)) <= byte_len(s.take(j)),
        i < j ==> byte_len(s.take(i)) < byte_len(s.take(j)),
    decreases j - i,
{
    if i < j {
        lemma_take_mono(s, i, j - 1);
        lemma_take_succ(s, j - 1);
        lemma_char_width(s[j - 1]);
    }
}

/// A byte position starts at most one character.
pub proof fn lemma_cut_unique(s: Seq<char>, a: nat, i: int, j: int)
    requires
        is_cut(s, a, i),
        is_cut(s, a, j),
    ensures
        i == j,
{
    if i < j {
        lemma_take_mono(s, i, j);
    } else if j < i {
        lemma_take_mono(s, j, i);
    }
}

/// The UTF-8 width of `c`.
pub fn char_width_exec(c: char) -> (w: usize)
    ensures
        w as nat == byte_len(seq![c]),
{
    proof {
        vstd::utf8::char_is_scalar(c);
        assert(encode_utf8(seq![c]) =~= vstd::utf8::encode_scalar(c as u32) + encode_utf8(seq![c].drop_first()));
        assert(seq![c].drop_first() =~= Seq::<char>::empty());
    }
    let v = c as u32;
    if v <= 0x7f {
        1
    } else if v <= 0x7ff {
        2
    } else if v <= 0xffff {
        3
    } else {
        4
    }
}

/// The characters between byte positions `a` and `b` of `s`; `None` when a
/// position falls inside a character or past the end.
pub fn slice_str(s: &str, a: usize, b: usize) -> (r: Option<String>)
    requires
        a <= b,
    ensures
        r is None <==> byte_slice(s@, a as nat, b as nat) is None,
        r matches Some(t) ==> byte_slice(s@, a as nat, b as nat) == Some(t@),
{
    let v = chars_of(s);
    let total = utf8_len(s);
    let n = v.len();
    let mut acc: usize = 0;
    let mut k: usize = 0;
    let mut ia: Option<usize> = None;
    let mut ib: Option<usize> = None;
    assert(v@.take(v@.len() as int) =~= v@);
    loop
        invariant
            v@ == s@,
            n == v@.len(),
            total as nat == byte_len(s@),
            k <= n,
            acc as nat == byte_len(v@.take(k as int)),
            v@.take(n as int) == v@,
            ia matches Some(i) ==> i <= k && is_cut(s@, a as nat, i as int),
            ia is None ==> forall|i: int| 0 <= i < k ==> !is_cut(s@, a as nat, i),
            ib matches Some(i) ==> i <= k && is_cut(s@, b as nat, i as int),
            ib is None ==> forall|i: int| 0 <= i < k ==> !is_cut(s@, b as nat, i),
        ensures
            ia matches Some(i) ==> i <= n && is_cut(s@, a as nat, i as int),
            ia is None ==> forall|i: int| 0 <= i <= n ==> !is_cut(s@, a as nat, i),
            ib matches Some(i) ==> i <= n && is_cut(s@, b as nat, i as int),
            ib is None ==> forall|i: int| 0 <= i <= n ==> !is_cut(s@, b as nat, i),
        decreases n - k,
    {
        if acc == a && ia.is_none() {
            ia = Some(k);
        }
        if acc == b && ib.is_none() {
            ib = Some(k);
        }
        if k == n {
            break;
        }
        proof {
            lemma_take_succ(v@, k as int);
            lemma_take_mono(v@, k + 1, n as int);
            lemma_char_width(v@[k as int]);
        }
        acc = acc + char_width_exec(v[k]);
        k = k + 1;
    }
    match (ia, ib) {
        (Some(i), Some(j)) => {
            proof {
                lemma_cut_unique(s@, a as nat, i as int, choose|x: int| is_cut(s@, a as nat, x));
                lemma_cut_unique(s@, b as nat, j as int, choose|x: int| is_cut(s@, b as nat, x));
                if j < i {
                    lemma_take_mono(s@, j as int, i as int);
                }
            }
            Some(string_from_chars(&v, i, j))
        },
        _ => None,
    }
}

/// The parts, in order, with `sep` between each two.
pub open spec fn join_with(parts: Seq<Seq<char>>, sep: Seq<char>) -> Seq<char>
    decreases parts.len(),
{
    if parts.len() == 0 {
        Seq::empty()
    } else if parts.len() == 1 {
        parts[0]
    } else {
        join_with(parts.drop_last(), sep) + sep + parts.last()
    }
}

/// The texts of the strings.
pub open spec fn strings_view(v: Seq<String>) -> Seq<Seq<char>> {
    v.map_values(|s: String| s@)
}

/// The parts joined with `sep` between each two.
pub fn join_strings(parts: &Vec<String>, sep: &str) -> (r: String)
    ensures
        r@ == join_with(strings_view(parts@), sep@),
{
    let mut out = String::new();
    let mut i: usize = 0;
    assert(strings_view(parts@).take(0) =~= Seq::<Seq<char>>::empty());
    while i < parts.len()
        invariant
            i <= parts.len(),
            out@ == join_with(strings_view(parts@).take(i as int), sep@),
        decreases parts.len() - i,
    {
        let ghost before = strings_view(parts@).take(i as int);
        proof {
            assert(strings_view(parts@).take(i + 1).drop_last() =~= before);
        }
        if i > 0 {
            push_str(&mut out, sep);
        }
        push_str(&mut out, parts[i].as_str());
        proof {
            if i == 0 {
                assert(out@ =~= strings_view(parts@).take(1)[0]);
            } else {
                assert(out@ =~= join_with(before, sep@) + sep@ + strings_view(parts@).take(i + 1).last());
            }
        }
        i = i + 1;
    }
    assert(strings_view(parts@).take(i as int) =~= strings_view(parts@));
    out
}

} // verus!
