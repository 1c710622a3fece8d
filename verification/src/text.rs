//! Characters, lines and words of text, as `str::chars`, `str::lines` and
//! `str::split_whitespace` give them.
use vstd::prelude::*;

verus! {

/// `char::is_whitespace`: the characters with the Unicode `White_Space`
/// property.
pub open spec fn is_whitespace(c: char) -> bool {
    let v = c as u32;
    (0x9 <= v && v <= 0xd) || v == 0x20 || v == 0x85 || v == 0xa0 || v == 0x1680 || (0x2000 <= v
        && v <= 0x200a) || v == 0x2028 || v == 0x2029 || v == 0x202f || v == 0x205f || v == 0x3000
}

pub fn is_whitespace_exec(c: char) -> (r: bool)
    ensures
        r == is_whitespace(c),
{
    let v = c as u32;
    (0x9 <= v && v <= 0xd) || v == 0x20 || v == 0x85 || v == 0xa0 || v == 0x1680 || (0x2000 <= v
        && v <= 0x200a) || v == 0x2028 || v == 0x2029 || v == 0x202f || v == 0x205f || v == 0x3000
}

pub open spec fn is_newline(c: char) -> bool {
    c == '\n'
}

/// The pieces of `s` between the characters for which `sep` holds (those
/// characters dropped): n separators give n + 1 pieces, some maybe empty.
pub open spec fn split_at(s: Seq<char>, sep: spec_fn(char) -> bool) -> Seq<Seq<char>>
    decreases s.len(),
{
    if s.len() == 0 {
        seq![Seq::empty()]
    } else {
        let pieces = split_at(s.drop_last(), sep);
        if sep(s.last()) {
            pieces.push(Seq::empty())
        } else {
            pieces.update(pieces.len() - 1, pieces.last().push(s.last()))
        }
    }
}

/// The pieces of `s` between `\n`s.
pub open spec fn newline_pieces(s: Seq<char>) -> Seq<Seq<char>> {
    split_at(s, |c: char| is_newline(c))
}

/// The pieces of `s` between whitespace characters.
pub open spec fn whitespace_pieces(s: Seq<char>) -> Seq<Seq<char>> {
    split_at(s, |c: char| is_whitespace(c))
}

/// The pieces that are not empty.
pub open spec fn non_empty(pieces: Seq<Seq<char>>) -> Seq<Seq<char>> {
    pieces.filter(|w: Seq<char>| w.len() > 0)
}

/// A line without the `\r` of a `\r\n` ending.
pub open spec fn strip_carriage_return(line: Seq<char>) -> Seq<char> {
    if line.len() > 0 && line.last() == '\r' {
        line.drop_last()
    } else {
        line
    }
}

/// `str::lines`: the pieces between `\n`s, those ended by `\n` without a
/// final `\r`; a final empty piece (after a last `\n`, or of empty text) is
/// not a line.
pub open spec fn text_lines(s: Seq<char>) -> Seq<Seq<char>> {
    let pieces = newline_pieces(s);
    let ended = pieces.drop_last().map_values(|line: Seq<char>| strip_carriage_return(line));
    if pieces.last().len() == 0 {
        ended
    } else {
        ended.push(pieces.last())
    }
}

/// `str::split_whitespace`: the non-empty pieces between whitespace.
pub open spec fn words_of(s: Seq<char>) -> Seq<Seq<char>> {
    non_empty(whitespace_pieces(s))
}

/// The digit character for `d < 10`.
pub open spec fn digit_char(d: nat) -> char {
    if d == 0 {
        '0'
    } else if d == 1 {
        '1'
    } else if d == 2 {
        '2'
    } else if d == 3 {
        '3'
    } else if d == 4 {
        '4'
    } else if d == 5 {
        '5'
    } else if d == 6 {
        '6'
    } else if d == 7 {
        '7'
    } else if d == 8 {
        '8'
    } else {
        '9'
    }
}

/// `n` in decimal, as `Display` writes an unsigned integer.
pub open spec fn decimal(n: nat) -> Seq<char>
    decreases n,
{
    if n < 10 {
        seq![digit_char(n)]
    } else {
        decimal(n / 10).push(digit_char(n % 10))
    }
}

/// `n` spaces.
pub open spec fn spaces(n: nat) -> Seq<char> {
    Seq::new(n, |i: int| ' ')
}

/// `s` right-aligned in `width` characters (`{:>width}`): spaces before it
/// when it is shorter, nothing cut when it is longer.
pub open spec fn pad_left(s: Seq<char>, width: nat) -> Seq<char> {
    if s.len() < width {
        spaces((width - s.len()) as nat) + s
    } else {
        s
    }
}

/// `s` left-aligned in `width` characters (`{:<width}`).
pub open spec fn pad_right(s: Seq<char>, width: nat) -> Seq<char> {
    if s.len() < width {
        s + spaces((width - s.len()) as nat)
    } else {
        s
    }
}

/// Calls `String::push`; claims that the text afterwards is the text before
/// with `c` appended.
#[verifier::external_body]
pub fn push_char(out: &mut String, c: char)
    ensures
        final(out)@ == old(out)@.push(c),
{
    out.push(c);
}

pub fn digit_char_exec(d: u128) -> (r: char)
    requires
        d < 10,
    ensures
        r == digit_char(d as nat),
{
    if d == 0 {
        '0'
    } else if d == 1 {
        '1'
    } else if d == 2 {
        '2'
    } else if d == 3 {
        '3'
    } else if d == 4 {
        '4'
    } else if d == 5 {
        '5'
    } else if d == 6 {
        '6'
    } else if d == 7 {
        '7'
    } else if d == 8 {
        '8'
    } else {
        '9'
    }
}

/// Appends `n` in decimal.
pub fn push_decimal(out: &mut String, n: u128)
    ensures
        final(out)@ == old(out)@ + decimal(n as nat),
    decreases n,
{
    if n >= 10 {
        push_decimal(out, n / 10);
    }
    push_char(out, digit_char_exec(n % 10));
    proof {
        if n >= 10 {
            assert(old(out)@ + decimal(n as nat) =~= old(out)@ + decimal((n / 10) as nat) + seq![
                digit_char((n % 10) as nat),
            ]);
        }
    }
}

/// `n` in decimal.
pub fn decimal_string(n: u128) -> (r: String)
    ensures
        r@ == decimal(n as nat),
{
    let mut out = String::new();
    push_decimal(&mut out, n);
    proof {
        assert(Seq::<char>::empty() + decimal(n as nat) =~= decimal(n as nat));
    }
    out
}

/// Appends `n` spaces.
pub fn push_spaces(out: &mut String, n: usize)
    ensures
        final(out)@ == old(out)@ + spaces(n as nat),
{
    let mut i: usize = 0;
    while i < n
        invariant
            i <= n,
            out@ == old(out)@ + spaces(i as nat),
        decreases n - i,
    {
        push_char(out, ' ');
        proof {
            assert(old(out)@ + spaces(i as nat) + seq![' '] =~= old(out)@ + spaces((i + 1) as nat));
        }
        i = i + 1;
    }
}

/// Appends `s` right-aligned in `width` characters.
pub fn push_padded_left(out: &mut String, s: &str, width: usize)
    ensures
        final(out)@ == old(out)@ + pad_left(s@, width as nat),
{
    let len = s.unicode_len();
    if len < width {
        push_spaces(out, width - len);
    }
    out.append(s);
    proof {
        if len < width {
            assert(old(out)@ + spaces((width - len) as nat) + s@ =~= old(out)@ + pad_left(
                s@,
                width as nat,
            ));
        }
    }
}

/// Appends `s` left-aligned in `width` characters.
pub fn push_padded_right(out: &mut String, s: &str, width: usize)
    ensures
        final(out)@ == old(out)@ + pad_right(s@, width as nat),
{
    let len = s.unicode_len();
    out.append(s);
    if len < width {
        push_spaces(out, width - len);
        proof {
            assert(old(out)@ + s@ + spaces((width - len) as nat) =~= old(out)@ + pad_right(
                s@,
                width as nat,
            ));
        }
    }
}

/// The characters of `s`, in order.
pub fn chars_of(s: &str) -> (r: Vec<char>)
    ensures
        r@ == s@,
{
    let mut out: Vec<char> = Vec::new();
    for c in it: s.chars()
        invariant
            out@ == it.seq().take(it.index() as int),
    {
        out.push(c);
    }
    out
}

fn strip_carriage_return_exec(line: &mut Vec<char>)
    ensures
        final(line)@ == strip_carriage_return(old(line)@),
{
    if line.len() > 0 && line[line.len() - 1] == '\r' {
        let _ = line.pop();
    }
}

/// The lines of `chars`, as `str::lines` gives them.
pub fn split_lines(chars: &Vec<char>) -> (r: Vec<Vec<char>>)
    ensures
        r@.len() == text_lines(chars@).len(),
        forall|k: int| 0 <= k < r@.len() ==> #[trigger] r@[k]@ == text_lines(chars@)[k],
{
    let mut done: Vec<Vec<char>> = Vec::new();
    let mut cur: Vec<char> = Vec::new();
    let ghost mut raw: Seq<Seq<char>> = Seq::empty();
    let mut i: usize = 0;
    proof {
        assert(chars@.take(0) =~= Seq::<char>::empty());
    }
    while i < chars.len()
        invariant
            i <= chars@.len(),
            newline_pieces(chars@.take(i as int)) == raw.push(cur@),
            done@.len() == raw.len(),
            forall|k: int| 0 <= k < done@.len() ==> #[trigger] done@[k]@ == strip_carriage_return(raw[k]),
        decreases chars@.len() - i,
    {
        let c = chars[i];
        proof {
            assert(chars@.take(i + 1).drop_last() =~= chars@.take(i as int));
            assert(chars@.take(i + 1).last() == c);
        }
        if c == '\n' {
            let mut piece: Vec<char> = Vec::new();
            std::mem::swap(&mut piece, &mut cur);
            let ghost whole = piece@;
            strip_carriage_return_exec(&mut piece);
            done.push(piece);
            proof {
                raw = raw.push(whole);
                assert(newline_pieces(chars@.take(i + 1)) =~= raw.push(cur@));
            }
        } else {
            cur.push(c);
            proof {
                assert(newline_pieces(chars@.take(i + 1)) =~= raw.push(cur@));
            }
        }
        i = i + 1;
    }
    proof {
        assert(chars@.take(i as int) =~= chars@);
    }
    proof {
        assert(raw.push(cur@).drop_last() =~= raw);
    }
    if cur.len() > 0 {
        let ghost last = cur@;
        done.push(cur);
        proof {
            assert(text_lines(chars@) =~= raw.map_values(|line: Seq<char>| strip_carriage_return(line)).push(last));
        }
    } else {
        proof {
            assert(text_lines(chars@) =~= raw.map_values(|line: Seq<char>| strip_carriage_return(line)));
        }
    }
    done
}

/// The words of `line`, as `str::split_whitespace` gives them.
pub fn split_words(line: &Vec<char>) -> (r: Vec<Vec<char>>)
    ensures
        r@.len() == words_of(line@).len(),
        forall|k: int| 0 <= k < r@.len() ==> #[trigger] r@[k]@ == words_of(line@)[k],
{
    let mut words: Vec<Vec<char>> = Vec::new();
    let mut cur: Vec<char> = Vec::new();
    let ghost mut raw: Seq<Seq<char>> = Seq::empty();
    let mut i: usize = 0;
    proof {
        assert(line@.take(0) =~= Seq::<char>::empty());
        reveal(Seq::filter);
    }
    while i < line.len()
        invariant
            i <= line@.len(),
            whitespace_pieces(line@.take(i as int)) == raw.push(cur@),
            words@.len() == non_empty(raw).len(),
            forall|k: int| 0 <= k < words@.len() ==> #[trigger] words@[k]@ == non_empty(raw)[k],
        decreases line@.len() - i,
    {
        let c = line[i];
        proof {
            assert(line@.take(i + 1).drop_last() =~= line@.take(i as int));
            assert(line@.take(i + 1).last() == c);
        }
        if is_whitespace_exec(c) {
            let mut piece: Vec<char> = Vec::new();
            std::mem::swap(&mut piece, &mut cur);
            let ghost whole = piece@;
            proof {
                reveal(Seq::filter);
                assert(raw.push(whole).drop_last() =~= raw);
                raw = raw.push(whole);
                assert(whitespace_pieces(line@.take(i + 1)) =~= raw.push(cur@));
            }
            if piece.len() > 0 {
                words.push(piece);
            }
        } else {
            cur.push(c);
            proof {
                assert(whitespace_pieces(line@.take(i + 1)) =~= raw.push(cur@));
            }
        }
        i = i + 1;
    }
    proof {
        assert(line@.take(i as int) =~= line@);
        reveal(Seq::filter);
        assert(raw.push(cur@).drop_last() =~= raw);
    }
    if cur.len() > 0 {
        words.push(cur);
    }
    words
}

} // verus!
