//! Text helpers: the character-level definitions that the rest of the library
//! states its contracts in, and their executable counterparts.
use vstd::prelude::*;

verus! {

broadcast use vstd::string::group_string_axioms;

/// `String::push`: appends one character to the end of the string.
pub assume_specification[ String::push ](s: &mut String, c: char)
    ensures
        final(s)@ == old(s)@.push(c),
;

/// The views of a sequence of strings.
pub open spec fn views(v: Seq<String>) -> Seq<Seq<char>> {
    v.map_values(|s: String| s@)
}

/// The characters of a string, one element each.
pub fn chars_of(s: &str) -> (r: Vec<char>)
    ensures
        r@ == s@,
{
    let mut out: Vec<char> = Vec::new();
    for c in it: s.chars()
        invariant
            out@ == s@.take(it.index()),
            it.seq() == s@,
    {
        out.push(c);
        assert(s@.take(it.index() + 1) =~= s@.take(it.index()).push(c));
    }
    assert(s@.take(s@.len() as int) =~= s@);
    out
}

/// The string made of the characters at positions `from..to`.
pub fn string_between(cs: &Vec<char>, from: usize, to: usize) -> (r: String)
    requires
        from <= to <= cs@.len(),
    ensures
        r@ == cs@.subrange(from as int, to as int),
{
    let mut out = String::new();
    let mut i: usize = from;
    while i < to
        invariant
            from <= i <= to <= cs@.len(),
            out@ == cs@.subrange(from as int, i as int),
        decreases to - i,
    {
        out.push(cs[i]);
        assert(cs@.subrange(from as int, i + 1) =~= cs@.subrange(from as int, i as int).push(
            cs@[i as int],
        ));
        i = i + 1;
    }
    out
}

/// The decimal digit `d`.
pub open spec fn digit(d: nat) -> char {
    if d == 0 { '0' } else if d == 1 { '1' } else if d == 2 { '2' } else if d == 3 { '3' }
    else if d == 4 { '4' } else if d == 5 { '5' } else if d == 6 { '6' } else if d == 7 { '7' }
    else if d == 8 { '8' } else { '9' }
}

/// `n` in decimal, without leading zeros.
pub open spec fn decimal(n: nat) -> Seq<char>
    decreases n,
{
    if n < 10 {
        seq![digit(n)]
    } else {
        decimal(n / 10).push(digit(n % 10))
    }
}

fn digit_char(d: u64) -> (r: char)
    requires
        d < 10,
    ensures
        r == digit(d as nat),
{
    if d == 0 { '0' } else if d == 1 { '1' } else if d == 2 { '2' } else if d == 3 { '3' }
    else if d == 4 { '4' } else if d == 5 { '5' } else if d == 6 { '6' } else if d == 7 { '7' }
    else if d == 8 { '8' } else { '9' }
}

/// Appends `n` in decimal to `out`.
pub fn push_decimal(out: &mut String, n: u64)
    ensures
        final(out)@ == old(out)@ + decimal(n as nat),
    decreases n,
{
    if n < 10 {
        out.push(digit_char(n));
        assert(out@ =~= old(out)@ + decimal(n as nat));
    } else {
        push_decimal(out, n / 10);
        out.push(digit_char(n % 10));
        assert(out@ =~= old(out)@ + decimal(n as nat));
    }
}

/// Appends an optionally negative decimal integer.
pub open spec fn signed_decimal(n: int) -> Seq<char> {
    if n < 0 {
        seq!['-'] + decimal((-n) as nat)
    } else {
        decimal(n as nat)
    }
}

/// Appends `n` in decimal, with a leading `-` when it is negative.
pub fn push_signed_decimal(out: &mut String, n: i64)
    ensures
        final(out)@ == old(out)@ + signed_decimal(n as int),
{
    if n >= 0 {
        push_decimal(out, n as u64);
    } else {
        out.push('-');
        let mag: u64 = if n == i64::MIN {
            9223372036854775808u64
        } else {
            (-n) as u64
        };
        push_decimal(out, mag);
        assert(out@ =~= old(out)@ + signed_decimal(n as int));
    }
}

/// Unicode's `White_Space` property, which is what `char::is_whitespace` tests.
pub open spec fn is_space(c: char) -> bool {
    let u = c as u32;
    ||| 0x9 <= u <= 0xd
    ||| u == 0x20
    ||| u == 0x85
    ||| u == 0xa0
    ||| u == 0x1680
    ||| 0x2000 <= u <= 0x200a
    ||| u == 0x2028
    ||| u == 0x2029
    ||| u == 0x202f
    ||| u == 0x205f
    ||| u == 0x3000
}

fn space(c: char) -> (r: bool)
    ensures
        r == is_space(c),
{
    let u: u32 = c as u32;
    (0x9 <= u && u <= 0xd) || u == 0x20 || u == 0x85 || u == 0xa0 || u == 0x1680 || (0x2000 <= u
        && u <= 0x200a) || u == 0x2028 || u == 0x2029 || u == 0x202f || u == 0x205f || u == 0x3000
}

/// `s` without its leading white space.
pub open spec fn trim_start(s: Seq<char>) -> Seq<char>
    decreases s.len(),
{
    if s.len() > 0 && is_space(s[0]) {
        trim_start(s.skip(1))
    } else {
        s
    }
}

/// `s` without its trailing white space.
pub open spec fn trim_end(s: Seq<char>) -> Seq<char>
    decreases s.len(),
{
    if s.len() > 0 && is_space(s.last()) {
        trim_end(s.drop_last())
    } else {
        s
    }
}

/// `s` without the white space at either end.
pub open spec fn trim(s: Seq<char>) -> Seq<char> {
    trim_end(trim_start(s))
}

/// The bounds of `cs[from..to]` once trimmed of white space.
pub fn trim_bounds(cs: &Vec<char>, from: usize, to: usize) -> (r: (usize, usize))
    requires
        from <= to <= cs@.len(),
    ensures
        from <= r.0 <= r.1 <= to,
        cs@.subrange(r.0 as int, r.1 as int) == trim(cs@.subrange(from as int, to as int)),
{
    let mut a: usize = from;
    let ghost whole = cs@.subrange(from as int, to as int);
    while a < to && space(cs[a])
        invariant
            from <= a <= to <= cs@.len(),
            trim_start(whole) == trim_start(cs@.subrange(a as int, to as int)),
        decreases to - a,
    {
        assert(cs@.subrange(a as int, to as int).skip(1) =~= cs@.subrange(a + 1, to as int));
        a = a + 1;
    }
    assert(trim_start(whole) == cs@.subrange(a as int, to as int));
    let mut b: usize = to;
    while b > a && space(cs[b - 1])
        invariant
            a <= b <= to <= cs@.len(),
            trim_end(trim_start(whole)) == trim_end(cs@.subrange(a as int, b as int)),
        decreases b - a,
    {
        assert(cs@.subrange(a as int, b as int).drop_last() =~= cs@.subrange(a as int, b - 1));
        b = b - 1;
    }
    (a, b)
}

/// How many characters of `s` come before its first `c` (all of them if there is none).
pub open spec fn run_len(s: Seq<char>, c: char) -> nat
    decreases s.len(),
{
    if s.len() == 0 || s[0] == c {
        0
    } else {
        1 + run_len(s.skip(1), c)
    }
}

/// `run_len` is the position of the first `c`.
pub proof fn lemma_run_len(s: Seq<char>, c: char, n: int)
    requires
        0 <= n <= s.len(),
        forall|k: int| 0 <= k < n ==> s[k] != c,
        n == s.len() || s[n] == c,
    ensures
        run_len(s, c) == n,
    decreases s.len(),
{
    if n > 0 {
        assert forall|k: int| 0 <= k < n - 1 implies s.skip(1)[k] != c by {
            assert(s.skip(1)[k] == s[k + 1]);
        }
        lemma_run_len(s.skip(1), c, n - 1);
    }
}

/// The pieces of `s` between occurrences of `c`: `str::split` with a character.
pub open spec fn split(s: Seq<char>, c: char) -> Seq<Seq<char>>
    decreases s.len(),
{
    let n = run_len(s, c);
    if n >= s.len() {
        seq![s]
    } else {
        seq![s.take(n as int)] + split(s.skip(n as int + 1), c)
    }
}

/// The pieces of `s` between occurrences of `c`.
pub fn split_on(s: &str, c: char) -> (r: Vec<String>)
    ensures
        views(r@) == split(s@, c),
        r@.len() >= 1,
{
    let cs = chars_of(s);
    let mut out: Vec<String> = Vec::new();
    let mut start: usize = 0;
    let mut i: usize = 0;
    assert(cs@.skip(0) =~= cs@);
    assert(views(out@) + split(cs@.skip(0), c) =~= split(cs@, c));
    while i < cs.len()
        invariant
            start <= i <= cs@.len(),
            cs@ == s@,
            forall|k: int| start <= k < i ==> cs@[k] != c,
            views(out@) + split(cs@.skip(start as int), c) == split(s@, c),
        decreases cs@.len() - i,
    {
        if cs[i] == c {
            let ghost rest = cs@.skip(start as int);
            let ghost before = views(out@);
            let piece = string_between(&cs, start, i);
            proof {
                lemma_run_len(rest, c, i - start);
                assert(rest.take(i - start) =~= piece@);
                assert(rest.skip(i - start + 1) =~= cs@.skip(i + 1));
            }
            out.push(piece);
            proof {
                assert(views(out@) =~= before.push(piece@));
                assert(views(out@) + split(cs@.skip(i + 1), c) =~= before + (seq![piece@] + split(
                    cs@.skip(i + 1),
                    c,
                )));
            }
            start = i + 1;
        }
        i = i + 1;
    }
    let ghost rest = cs@.skip(start as int);
    let ghost before = views(out@);
    let piece = string_between(&cs, start, cs.len());
    proof {
        lemma_run_len(rest, c, rest.len() as int);
        assert(rest =~= piece@);
    }
    out.push(piece);
    assert(views(out@) =~= before + seq![piece@]);
    out
}

/// A line without the carriage return that its line feed may follow.
pub open spec fn drop_return(s: Seq<char>) -> Seq<char> {
    if s.len() > 0 && s.last() == '\r' {
        s.drop_last()
    } else {
        s
    }
}

/// The lines of `s`, as `str::lines` gives them: ended by `\n` or `\r\n`, the
/// last line's ending being optional.
pub open spec fn lines(s: Seq<char>) -> Seq<Seq<char>>
    decreases s.len(),
{
    let n = run_len(s, '\n');
    if s.len() == 0 {
        Seq::empty()
    } else if n >= s.len() {
        seq![s]
    } else {
        seq![drop_return(s.take(n as int))] + lines(s.skip(n as int + 1))
    }
}

/// The lines of `s`.
pub fn lines_of(s: &str) -> (r: Vec<String>)
    ensures
        views(r@) == lines(s@),
{
    let cs = chars_of(s);
    let mut out: Vec<String> = Vec::new();
    let mut start: usize = 0;
    let mut i: usize = 0;
    assert(cs@.skip(0) =~= cs@);
    assert(views(out@) + lines(cs@.skip(0)) =~= lines(cs@));
    while i < cs.len()
        invariant
            start <= i <= cs@.len(),
            cs@ == s@,
            forall|k: int| start <= k < i ==> cs@[k] != '\n',
            views(out@) + lines(cs@.skip(start as int)) == lines(s@),
        decreases cs@.len() - i,
    {
        if cs[i] == '\n' {
            let ghost rest = cs@.skip(start as int);
            let ghost before = views(out@);
            let end: usize = if i > start && cs[i - 1] == '\r' { i - 1 } else { i };
            let piece = string_between(&cs, start, end);
            proof {
                lemma_run_len(rest, '\n', i - start);
                let line = rest.take(i - start);
                assert(i > start ==> line.last() == cs@[i - 1]);
                assert(drop_return(line) =~= piece@);
                assert(rest.skip(i - start + 1) =~= cs@.skip(i + 1));
            }
            out.push(piece);
            proof {
                assert(views(out@) =~= before.push(piece@));
                assert(views(out@) + lines(cs@.skip(i + 1)) =~= before + (seq![piece@] + lines(
                    cs@.skip(i + 1),
                )));
            }
            start = i + 1;
        }
        i = i + 1;
    }
    if start < cs.len() {
        let ghost rest = cs@.skip(start as int);
        let ghost before = views(out@);
        let piece = string_between(&cs, start, cs.len());
        proof {
            lemma_run_len(rest, '\n', rest.len() as int);
            assert(rest =~= piece@);
        }
        out.push(piece);
        assert(views(out@) =~= before + seq![piece@]);
    } else {
        assert(cs@.skip(start as int) =~= Seq::<char>::empty());
        assert(views(out@) =~= views(out@) + Seq::<Seq<char>>::empty());
    }
    out
}

/// Pieces with `c` between each two of them.
pub open spec fn joined(pieces: Seq<Seq<char>>, c: char) -> Seq<char>
    decreases pieces.len(),
{
    if pieces.len() == 0 {
        Seq::empty()
    } else if pieces.len() == 1 {
        pieces[0]
    } else {
        pieces[0] + seq![c] + joined(pieces.skip(1), c)
    }
}

proof fn lemma_run(s: Seq<char>, c: char)
    ensures
        run_len(s, c) <= s.len(),
        forall|k: int| 0 <= k < run_len(s, c) ==> s[k] != c,
        run_len(s, c) < s.len() ==> s[run_len(s, c) as int] == c,
    decreases s.len(),
{
    if s.len() > 0 && s[0] != c {
        lemma_run(s.skip(1), c);
        assert forall|k: int| 0 <= k < run_len(s, c) implies s[k] != c by {
            if k > 0 {
                assert(s[k] == s.skip(1)[k - 1]);
            }
        }
    }
}

/// The pieces of a text put together again are the text, and no piece holds the
/// character that it was split at. There is always one piece.
pub proof fn law_split_text_joins_back(s: Seq<char>, c: char)
    ensures
        joined(split(s, c), c) == s,
        split(s, c).len() >= 1,
        forall|i: int, k: int|
            #![trigger split(s, c)[i][k]]
            0 <= i < split(s, c).len() && 0 <= k < split(s, c)[i].len() ==> split(s, c)[i][k] != c,
    decreases s.len(),
{
    let n = run_len(s, c);
    lemma_run(s, c);
    if n < s.len() {
        let head = s.take(n as int);
        let rest = s.skip(n as int + 1);
        law_split_text_joins_back(rest, c);
        let all = split(s, c);
        assert(all == seq![head] + split(rest, c));
        assert(all.skip(1) =~= split(rest, c));
        assert(all[0] == head);
        assert(s =~= head + seq![c] + rest);
        assert forall|i: int, k: int|
            #![trigger all[i][k]]
            0 <= i < all.len() && 0 <= k < all[i].len() implies all[i][k] != c by {
            if i > 0 {
                assert(all[i] == split(rest, c)[i - 1]);
            }
        }
    }
}

/// A text is one line up to its first line feed, less the carriage return before
/// that, and the lines of what follows; a text without a line feed is one line.
pub proof fn law_lines_end_at_line_feeds(line: Seq<char>, rest: Seq<char>)
    requires
        !line.contains('\n'),
    ensures
        lines(Seq::empty()) == Seq::<Seq<char>>::empty(),
        line.len() > 0 ==> lines(line) == seq![line],
        line.len() == 0 || line.last() != '\r' ==> lines(line + seq!['\n'] + rest) == seq![line]
            + lines(rest),
        lines(line + seq!['\r', '\n'] + rest) == seq![line] + lines(rest),
{
    assert forall|k: int| 0 <= k < line.len() implies line[k] != '\n' by {
        assert(line.contains(line[k]));
    }
    lemma_run_len(line, '\n', line.len() as int);
    let a = line + seq!['\n'] + rest;
    lemma_run_len(a, '\n', line.len() as int);
    assert(a.take(line.len() as int) =~= line);
    assert(a.skip(line.len() as int + 1) =~= rest);
    let returned = line + seq!['\r'];
    let b = line + seq!['\r', '\n'] + rest;
    lemma_run_len(b, '\n', line.len() as int + 1);
    assert(b.take(line.len() as int + 1) =~= returned);
    assert(returned.drop_last() =~= line);
    assert(b.skip(line.len() as int + 2) =~= rest);
}

/// The value of decimal digits.
pub open spec fn decimal_value(s: Seq<char>) -> int
    decreases s.len(),
{
    if s.len() == 0 {
        0
    } else {
        10 * decimal_value(s.drop_last()) + (s.last() as int - '0' as int)
    }
}

/// A number in decimal reads back as the number. It is digits alone and has no
/// zero before others.
pub proof fn law_decimal_reads_back(n: nat)
    ensures
        decimal_value(decimal(n)) == n,
        decimal(n).len() >= 1,
        decimal(n)[0] == '0' ==> n == 0,
        forall|i: int| 0 <= i < decimal(n).len() ==> '0' <= #[trigger] decimal(n)[i] <= '9',
    decreases n,
{
    reveal_with_fuel(decimal_value, 2);
    if n < 10 {
        assert(decimal(n).drop_last() =~= Seq::empty());
    } else {
        law_decimal_reads_back(n / 10);
        let rest = decimal(n / 10);
        assert(decimal(n) == rest.push(digit(n % 10)));
        assert(decimal(n).drop_last() =~= rest);
        assert forall|i: int| 0 <= i < decimal(n).len() implies '0' <= #[trigger] decimal(n)[i]
            <= '9' by {
            if i < rest.len() {
                assert(decimal(n)[i] == rest[i]);
            }
        }
    }
}

/// A negative number is its magnitude after a minus.
pub proof fn law_signed_decimal_reads_back(n: int)
    ensures
        n >= 0 ==> decimal_value(signed_decimal(n)) == n && signed_decimal(n)[0] != '-',
        n < 0 ==> signed_decimal(n)[0] == '-' && decimal_value(signed_decimal(n).skip(1)) == -n,
{
    if n >= 0 {
        law_decimal_reads_back(n as nat);
        assert('0' <= decimal(n as nat)[0]);
    } else {
        law_decimal_reads_back((-n) as nat);
        assert(signed_decimal(n).skip(1) =~= decimal((-n) as nat));
    }
}

/// Whether every character is white space.
pub open spec fn all_space(s: Seq<char>) -> bool {
    forall|k: int| 0 <= k < s.len() ==> is_space(#[trigger] s[k])
}

/// To trim a text takes off the white space around what is left, and nothing else.
pub proof fn law_trim_takes_off_the_space_around(before: Seq<char>, s: Seq<char>, after: Seq<char>)
    requires
        all_space(before),
        all_space(after),
        s.len() > 0 ==> !is_space(s[0]) && !is_space(s.last()),
    ensures
        trim(before + s + after) == s,
    decreases before.len() + after.len(),
{
    let whole = before + s + after;
    if before.len() > 0 {
        let rest = before.skip(1);
        assert forall|k: int| 0 <= k < rest.len() implies is_space(#[trigger] rest[k]) by {
            assert(rest[k] == before[k + 1]);
        }
        assert(is_space(before[0]));
        assert(whole.skip(1) =~= rest + s + after);
        law_trim_takes_off_the_space_around(rest, s, after);
    } else if s.len() > 0 {
        assert(whole[0] == s[0]);
        assert(trim_start(whole) == whole);
        if after.len() > 0 {
            let rest = after.drop_last();
            assert(is_space(after[after.len() - 1]));
            assert(whole.last() == after.last());
            assert(whole.drop_last() =~= before + s + rest);
            law_trim_takes_off_the_space_around(before, s, rest);
            assert((before + s + rest)[0] == s[0]);
        } else {
            assert(whole =~= s);
        }
    } else if after.len() > 0 {
        let rest = after.skip(1);
        assert forall|k: int| 0 <= k < rest.len() implies is_space(#[trigger] rest[k]) by {
            assert(rest[k] == after[k + 1]);
        }
        assert(is_space(after[0]));
        assert(whole.skip(1) =~= before + s + rest);
        law_trim_takes_off_the_space_around(before, s, rest);
    } else {
        assert(whole =~= s);
    }
}

/// Of the characters of ASCII the blank and the five that move to another column or
/// line are white space; beyond it there are the spaces of other widths, with or
/// without a break, and the separators of lines and paragraphs.
pub proof fn law_white_space_is_blank(c: char)
    ensures
        '!' <= c <= '~' ==> !is_space(c),
        c == ' ' || '\t' <= c <= '\r' ==> is_space(c),
        c <= '~' && is_space(c) ==> c == ' ' || '\t' <= c <= '\r',
        '\u{2000}' <= c <= '\u{200a}' ==> is_space(c),
        c == '\u{85}' || c == '\u{a0}' || c == '\u{1680}' || c == '\u{2028}' || c == '\u{2029}'
            || c == '\u{202f}' || c == '\u{205f}' || c == '\u{3000}' ==> is_space(c),
        '\u{3001}' <= c || '\u{a1}' <= c < '\u{1680}' || '\u{200b}' <= c < '\u{2028}'
            ==> !is_space(c),
{
}

} // verus!
