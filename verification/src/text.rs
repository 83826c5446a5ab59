//! Text measured in bytes and edited at byte offsets.
use vstd::prelude::*;
use vstd::utf8::*;

verus! {

/// The number of bytes that UTF-8 spends on a character.
pub open spec fn char_bytes(c: char) -> nat {
    if (c as u32) < 0x80 {
        1
    } else if (c as u32) < 0x800 {
        2
    } else if (c as u32) < 0x10000 {
        3
    } else {
        4
    }
}

/// The number of bytes that UTF-8 spends on a text.
pub open spec fn byte_len(s: Seq<char>) -> nat
    decreases s.len(),
{
    if s.len() == 0 {
        0
    } else {
        byte_len(s.drop_last()) + char_bytes(s.last())
    }
}

/// The byte offset `at` lies between two characters of `s`, or at one of its ends.
pub open spec fn boundary(s: Seq<char>, at: int) -> bool {
    exists|k: int| 0 <= k <= s.len() && #[trigger] byte_len(s.take(k)) == at
}

/// The number of characters of `s` that lie before the byte offset `at`.
pub open spec fn chars_before(s: Seq<char>, at: int) -> int {
    choose|k: int| 0 <= k <= s.len() && #[trigger] byte_len(s.take(k)) == at
}

/// The bytes of two texts in a row add up.
pub proof fn lemma_byte_len_concat(a: Seq<char>, b: Seq<char>)
    ensures
        byte_len(a + b) == byte_len(a) + byte_len(b),
    decreases b.len(),
{
    if b.len() == 0 {
        assert(a + b =~= a);
    } else {
        assert((a + b).drop_last() =~= a + b.drop_last());
        lemma_byte_len_concat(a, b.drop_last());
    }
}

/// A longer prefix of a text spends more bytes, by at least one a character.
pub proof fn lemma_byte_len_take(s: Seq<char>, i: int, j: int)
    requires
        0 <= i <= j <= s.len(),
    ensures
        byte_len(s.take(j)) == byte_len(s.take(i)) + byte_len(s.subrange(i, j)),
        byte_len(s.take(i)) + (j - i) <= byte_len(s.take(j)),
    decreases j - i,
{
    assert(s.take(j) =~= s.take(i) + s.subrange(i, j));
    lemma_byte_len_concat(s.take(i), s.subrange(i, j));
    lemma_byte_len_at_least(s.subrange(i, j));
}

pub proof fn lemma_byte_len_at_least(s: Seq<char>)
    ensures
        s.len() <= byte_len(s) <= 4 * s.len(),
    decreases s.len(),
{
    if s.len() > 0 {
        lemma_byte_len_at_least(s.drop_last());
    }
}

/// A byte offset on a boundary stands for one number of characters only.
pub proof fn lemma_chars_before(s: Seq<char>, k: int)
    requires
        0 <= k <= s.len(),
    ensures
        boundary(s, byte_len(s.take(k)) as int),
        chars_before(s, byte_len(s.take(k)) as int) == k,
{
    let at = byte_len(s.take(k)) as int;
    let m = chars_before(s, at);
    assert(0 <= m <= s.len() && byte_len(s.take(m)) == at);
    if m < k {
        lemma_byte_len_take(s, m, k);
    } else if k < m {
        lemma_byte_len_take(s, k, m);
    }
}

/// In ASCII text every byte is a character.
pub proof fn lemma_ascii_offsets(s: Seq<char>, at: int)
    requires
        ascii(s),
        0 <= at <= s.len(),
    ensures
        byte_len(s) == s.len(),
        byte_len(s.take(at)) == at,
        boundary(s, at),
        chars_before(s, at) == at,
{
    lemma_ascii_len(s);
    assert forall|i: int| 0 <= i < at implies (#[trigger] s.take(at)[i] as u32) < 0x80 by {
        assert(s.take(at)[i] == s[i]);
    }
    lemma_ascii_len(s.take(at));
    lemma_chars_before(s, at);
}

proof fn lemma_ascii_len(s: Seq<char>)
    requires
        ascii(s),
    ensures
        byte_len(s) == s.len(),
    decreases s.len(),
{
    if s.len() > 0 {
        assert forall|i: int| 0 <= i < s.drop_last().len() implies (#[trigger] s.drop_last()[i]
            as u32) < 0x80 by {
            assert(s.drop_last()[i] == s[i]);
        }
        lemma_ascii_len(s.drop_last());
        assert(s.last() == s[s.len() - 1]);
    }
}

/// The byte count is the length of the UTF-8 encoding.
pub proof fn lemma_byte_len_is_utf8_len(s: Seq<char>)
    ensures
        byte_len(s) == encode_utf8(s).len(),
    decreases s.len(),
{
    if s.len() > 0 {
        let first = seq![s[0]];
        let rest = s.drop_first();
        assert(s =~= first + rest);
        lemma_byte_len_concat(first, rest);
        lemma_byte_len_is_utf8_len(rest);
        assert(first.drop_last() =~= Seq::<char>::empty());
        assert(byte_len(first) == char_bytes(s[0])) by {
            reveal_with_fuel(byte_len, 2);
        }
        assert(encode_scalar(s[0] as u32).len() == char_bytes(s[0])) by {
            char_is_scalar(s[0]);
        }
    }
}

/// `String::insert` puts a character at a byte offset that lies on a boundary.
pub assume_specification[ String::insert ](s: &mut String, idx: usize, ch: char)
    requires
        boundary(old(s)@, idx as int),
    ensures
        final(s)@ == old(s)@.insert(chars_before(old(s)@, idx as int), ch),
;

/// `String::remove` takes out the character that starts at a byte offset.
pub assume_specification[ String::remove ](s: &mut String, idx: usize) -> (ch: char)
    requires
        boundary(old(s)@, idx as int),
        idx < byte_len(old(s)@),
    ensures
        ch == old(s)@[chars_before(old(s)@, idx as int)],
        final(s)@ == old(s)@.remove(chars_before(old(s)@, idx as int)),
;

/// `String::push` appends a character.
pub assume_specification[ String::push ](s: &mut String, ch: char)
    ensures
        final(s)@ == old(s)@.push(ch),
;

/// The number of bytes that UTF-8 spends on `c`.
pub fn utf8_width(c: char) -> (n: usize)
    ensures
        n == char_bytes(c),
{
    let code: u32 = c as u32;
    if code < 0x80 {
        1
    } else if code < 0x800 {
        2
    } else if code < 0x10000 {
        3
    } else {
        4
    }
}

/// The length of a text in bytes.
pub fn text_len(s: &str) -> (n: usize)
    ensures
        n == byte_len(s@),
{
    proof {
        lemma_byte_len_is_utf8_len(s@);
    }
    s.as_bytes().len()
}

/// Whether a byte offset lies on a character boundary of a text.
pub fn on_boundary(s: &str, at: usize) -> (b: bool)
    ensures
        b == boundary(s@, at as int),
{
    let mut offset: usize = 0;
    let size = text_len(s);
    for c in it: s.chars()
        invariant
            it.seq() == s@,
            offset == byte_len(s@.take(it.index() as int)),
            size == byte_len(s@),
            forall|k: int| 0 <= k < it.index() ==> #[trigger] byte_len(s@.take(k)) != at,
    {
        if offset == at {
            return true;
        }
        proof {
            let i = it.index() as int;
            assert(s@.take(i + 1).drop_last() =~= s@.take(i));
            lemma_byte_len_take(s@, i + 1, s@.len() as int);
            assert(s@.take(s@.len() as int) =~= s@);
        }
        offset += utf8_width(c);
    }
    assert(s@.take(s@.len() as int) =~= s@);
    offset == at
}

/// The characters of a text, one by one.
pub fn characters(text: &str) -> (chars: Vec<char>)
    ensures
        chars@ == text@,
{
    let mut chars: Vec<char> = Vec::new();
    for c in it: text.chars()
        invariant
            it.seq() == text@,
            chars@ == text@.take(it.index() as int),
    {
        chars.push(c);
        assert(chars@ =~= text@.take(it.index() as int + 1));
    }
    assert(text@.take(text@.len() as int) =~= text@);
    chars
}

/// The views of a list of texts.
pub open spec fn texts(v: Seq<String>) -> Seq<Seq<char>> {
    v.map_values(|s: String| s@)
}

/// The view of a text that may be missing.
pub open spec fn opt_text(o: Option<String>) -> Option<Seq<char>> {
    match o {
        Some(s) => Some(s@),
        None => None,
    }
}

pub proof fn lemma_texts_push(v: Seq<String>, s: String)
    ensures
        texts(v.push(s)) == texts(v).push(s@),
{
    assert(texts(v.push(s)) =~= texts(v).push(s@));
}

/// A copy of a list of texts.
pub fn copy_texts(v: &Vec<String>) -> (r: Vec<String>)
    ensures
        texts(r@) == texts(v@),
{
    let mut r: Vec<String> = Vec::new();
    for i in 0..v.len()
        invariant
            texts(r@) == texts(v@).take(i as int),
    {
        let s = v[i].clone();
        proof {
            lemma_texts_push(r@, s);
            assert(texts(v@).take(i + 1) =~= texts(v@).take(i as int).push(v@[i as int]@));
        }
        r.push(s);
    }
    assert(texts(v@).take(v@.len() as int) =~= texts(v@));
    r
}

/// A copy of a text that may be missing.
pub fn copy_opt(o: &Option<String>) -> (r: Option<String>)
    ensures
        opt_text(r) == opt_text(*o),
{
    match o {
        Some(s) => Some(s.clone()),
        None => None,
    }
}

/// Two texts in a row.
pub fn chain(a: &str, b: &str) -> (r: String)
    ensures
        r@ == a@ + b@,
{
    let mut r = a.to_owned();
    r.append(b);
    r
}

/// Three texts in a row.
pub fn chain3(a: &str, b: &str, c: &str) -> (r: String)
    ensures
        r@ == a@ + b@ + c@,
{
    let mut r = chain(a, b);
    r.append(c);
    r
}

/// Whether two texts hold the same characters.
pub fn same_text(a: &str, b: &str) -> (r: bool)
    ensures
        r == (a@ == b@),
{
    a.to_owned() == b.to_owned()
}

/// Texts in a row, with `sep` between each two.
pub open spec fn join(parts: Seq<Seq<char>>, sep: Seq<char>) -> Seq<char>
    decreases parts.len(),
{
    if parts.len() == 0 {
        Seq::empty()
    } else if parts.len() == 1 {
        parts[0]
    } else {
        join(parts.drop_last(), sep) + sep + parts.last()
    }
}

/// Joins texts with a separator.
pub fn join_texts(parts: &Vec<String>, sep: &str) -> (r: String)
    ensures
        r@ == join(texts(parts@), sep@),
{
    let mut r = String::new();
    for i in 0..parts.len()
        invariant
            r@ == join(texts(parts@).take(i as int), sep@),
    {
        proof {
            assert(texts(parts@).take(i + 1).drop_last() =~= texts(parts@).take(i as int));
        }
        if i > 0 {
            r.append(sep);
        } else {
            assert(r@ + parts@[0]@ =~= parts@[0]@);
        }
        r.append(parts[i].as_str());
    }
    assert(texts(parts@).take(parts@.len() as int) =~= texts(parts@));
    r
}

/// The decimal digit `d`.
pub open spec fn digit(d: int) -> char {
    (48 + d) as char
}

/// A number in decimal.
pub open spec fn decimal(n: nat) -> Seq<char>
    decreases n,
{
    if n < 10 {
        seq![digit(n as int)]
    } else {
        decimal(n / 10).push(digit((n % 10) as int))
    }
}

/// An integer in decimal, with a sign in front when it is negative.
pub open spec fn signed_decimal(n: int) -> Seq<char> {
    if n < 0 {
        seq!['-'] + decimal((-n) as nat)
    } else {
        decimal(n as nat)
    }
}

/// Writes a number in decimal.
pub fn decimal_text(n: u64) -> (r: String)
    ensures
        r@ == decimal(n as nat),
    decreases n,
{
    let last: u8 = (n % 10) as u8;
    let mut r = if n < 10 {
        String::new()
    } else {
        decimal_text(n / 10)
    };
    r.push((48u8 + last) as char);
    assert(n < 10 ==> r@ =~= seq![digit(n as int)]);
    r
}

/// Writes an integer in decimal.
pub fn signed_decimal_text(n: i64) -> (r: String)
    ensures
        r@ == signed_decimal(n as int),
{
    if n < 0 {
        let mut r = String::new();
        r.push('-');
        let size: u64 = (-(n as i128)) as u64;
        r.append(decimal_text(size).as_str());
        assert(r@ =~= seq!['-'] + decimal((-n) as nat));
        r
    } else {
        decimal_text(n as u64)
    }
}

/// The white space of the Unicode Character Database.
pub uninterp spec fn white_space(c: char) -> bool;

/// `char::is_whitespace` tells the characters with the Unicode property `White_Space` apart.
/// Of the ASCII characters the space, the tab and the line breaks have it, and no visible one.
pub assume_specification[ char::is_whitespace ](c: char) -> (b: bool)
    ensures
        b == white_space(c),
        c == ' ' || c == '\t' || c == '\n' || c == '\r' ==> b,
        0x21 <= (c as u32) <= 0x7e ==> !b,
;

/// A text of white space alone.
pub open spec fn blank(s: Seq<char>) -> bool {
    forall|i: int| 0 <= i < s.len() ==> white_space(#[trigger] s[i])
}

/// Whether nothing is left of a text when the white space at its ends is trimmed.
pub fn is_blank(s: &str) -> (b: bool)
    ensures
        b == blank(s@),
{
    for c in it: s.chars()
        invariant
            it.seq() == s@,
            forall|i: int| 0 <= i < it.index() ==> white_space(#[trigger] s@[i]),
    {
        if !c.is_whitespace() {
            assert(!white_space(s@[it.index() as int]));
            return false;
        }
    }
    true
}

/// Whether a text starts with another.
pub fn starts_with(s: &str, prefix: &str) -> (b: bool)
    ensures
        b == prefix@.is_prefix_of(s@),
{
    let whole = characters(s);
    let head = characters(prefix);
    if head.len() > whole.len() {
        return false;
    }
    for i in 0..head.len()
        invariant
            whole@ == s@,
            head@ == prefix@,
            head@.len() <= whole@.len(),
            forall|j: int| 0 <= j < i ==> whole@[j] == head@[j],
    {
        if whole[i] != head[i] {
            assert(s@.subrange(0, prefix@.len() as int)[i as int] != prefix@[i as int]);
            return false;
        }
    }
    assert(prefix@ =~= s@.subrange(0, prefix@.len() as int));
    true
}

/// A text cut into lines: those that a line feed ends, and what follows the last of them.
pub struct Cut {
    pub ended: Seq<Seq<char>>,
    pub open: Seq<char>,
}

/// A line without the carriage return that belongs to its line ending.
pub open spec fn without_return(line: Seq<char>) -> Seq<char> {
    if line.len() > 0 && line.last() == '\r' {
        line.drop_last()
    } else {
        line
    }
}

pub open spec fn cut(s: Seq<char>) -> Cut
    decreases s.len(),
{
    if s.len() == 0 {
        Cut { ended: Seq::empty(), open: Seq::empty() }
    } else {
        let before = cut(s.drop_last());
        if s.last() == '\n' {
            Cut { ended: before.ended.push(without_return(before.open)), open: Seq::empty() }
        } else {
            Cut { ended: before.ended, open: before.open.push(s.last()) }
        }
    }
}

/// The lines of a text. A line ends at a line feed, with or without a carriage return before
/// it; the last line needs no ending.
pub open spec fn lines(s: Seq<char>) -> Seq<Seq<char>> {
    let c = cut(s);
    if c.open.len() > 0 {
        c.ended.push(c.open)
    } else {
        c.ended
    }
}

/// Cuts a text into its lines.
pub fn split_lines(s: &str) -> (r: Vec<String>)
    ensures
        texts(r@) == lines(s@),
{
    let mut ended: Vec<String> = Vec::new();
    let mut open: Vec<char> = Vec::new();
    for c in it: s.chars()
        invariant
            it.seq() == s@,
            texts(ended@) == cut(s@.take(it.index() as int)).ended,
            open@ == cut(s@.take(it.index() as int)).open,
    {
        let ghost i = it.index() as int;
        assert(s@.take(i + 1).drop_last() =~= s@.take(i));
        if c == '\n' {
            let n = open.len();
            if n > 0 && open[n - 1] == '\r' {
                open.truncate(n - 1);
                assert(open@ =~= cut(s@.take(i)).open.drop_last());
            }
            let line = string_of(&open);
            ended.push(line);
            assert(texts(ended@) =~= cut(s@.take(i + 1)).ended);
            open = Vec::new();
        } else {
            open.push(c);
        }
    }
    assert(s@.take(s@.len() as int) =~= s@);
    if open.len() > 0 {
        let line = string_of(&open);
        ended.push(line);
        assert(texts(ended@) =~= lines(s@));
    }
    ended
}

/// The number of lines of a text.
pub fn count_lines(s: &str) -> (n: usize)
    ensures
        n == lines(s@).len(),
{
    split_lines(s).len()
}

/// A text made of characters.
pub fn string_of(chars: &Vec<char>) -> (r: String)
    ensures
        r@ == chars@,
{
    let mut r = String::new();
    for i in 0..chars.len()
        invariant
            r@ == chars@.take(i as int),
    {
        r.push(chars[i]);
        assert(r@ =~= chars@.take(i + 1));
    }
    assert(chars@.take(chars@.len() as int) =~= chars@);
    r
}

/// A text in upper case, as Unicode maps it.
pub uninterp spec fn uppercase(s: Seq<char>) -> Seq<char>;

/// The ASCII letters in upper case, and every other character as it is.
pub open spec fn ascii_upper(c: char) -> char {
    if 'a' <= c <= 'z' {
        ((c as u32) - 32) as char
    } else {
        c
    }
}

/// `str::to_uppercase` maps a text to upper case as Unicode has it; what comes out depends on the
/// text alone. In a text of ASCII characters the letters a to z become A to Z, and nothing else
/// changes.
pub assume_specification[ str::to_uppercase ](s: &str) -> (r: String)
    ensures
        r@ == uppercase(s@),
        ascii(s@) ==> r@ == s@.map_values(|c: char| ascii_upper(c)),
;

/// A text in lower case, as Unicode maps it.
pub uninterp spec fn lowercase(s: Seq<char>) -> Seq<char>;

/// A text of ASCII characters.
pub open spec fn ascii(s: Seq<char>) -> bool {
    forall|i: int| 0 <= i < s.len() ==> (#[trigger] s[i] as u32) < 0x80
}

/// The ASCII letters in lower case, and every other character as it is.
pub open spec fn ascii_lower(c: char) -> char {
    if 'A' <= c <= 'Z' {
        ((c as u32) + 32) as char
    } else {
        c
    }
}

/// `str::to_lowercase` maps a text to lower case as Unicode has it; what comes out depends on the
/// text alone. In a text of ASCII characters the letters A to Z become a to z, and nothing else
/// changes.
pub assume_specification[ str::to_lowercase ](s: &str) -> (r: String)
    ensures
        r@ == lowercase(s@),
        ascii(s@) ==> r@ == s@.map_values(|c: char| ascii_lower(c)),
;

/// The number that decimal digits stand for.
pub open spec fn number_of(digits: Seq<char>) -> int
    decreases digits.len(),
{
    if digits.len() == 0 {
        0
    } else {
        10 * number_of(digits.drop_last()) + (digits.last() as int - '0' as int)
    }
}

/// A number in decimal reads back as the number: it is made of digits, and starts with a zero
/// only where it is one.
pub proof fn decimals_read_back(n: nat)
    ensures
        number_of(decimal(n)) == n,
        decimal(n).len() > 0,
        forall|i: int| 0 <= i < decimal(n).len() ==> '0' <= #[trigger] decimal(n)[i] <= '9',
        n > 0 ==> decimal(n)[0] != '0',
    decreases n,
{
    assert(digit((n % 10) as int) as int == 48 + n % 10);
    if n < 10 {
        assert(decimal(n).drop_last() =~= Seq::<char>::empty());
        reveal_with_fuel(number_of, 2);
    } else {
        decimals_read_back(n / 10);
        assert(decimal(n).drop_last() =~= decimal(n / 10));
    }
}

/// An integer in decimal reads back as well, with a sign in front exactly when it is negative; so
/// different integers are written differently.
pub proof fn signed_decimals_read_back(n: int, m: int)
    ensures
        n < 0 ==> signed_decimal(n)[0] == '-' && number_of(signed_decimal(n).skip(1)) == -n,
        n >= 0 ==> signed_decimal(n)[0] != '-' && number_of(signed_decimal(n)) == n,
        signed_decimal(n) == signed_decimal(m) ==> n == m,
{
    if n < 0 {
        decimals_read_back((-n) as nat);
        assert(signed_decimal(n).skip(1) =~= decimal((-n) as nat));
    } else {
        decimals_read_back(n as nat);
    }
    if m < 0 {
        decimals_read_back((-m) as nat);
        assert(signed_decimal(m).skip(1) =~= decimal((-m) as nat));
    } else {
        decimals_read_back(m as nat);
    }
}

/// Texts that are joined can be joined piece by piece: what is joined of the first of them, the
/// separator, and what is joined of the rest. One text alone stays as it is.
pub proof fn joining_goes_piece_by_piece(parts: Seq<Seq<char>>, sep: Seq<char>, i: int)
    ensures
        0 < i < parts.len() ==> join(parts, sep) == join(parts.take(i), sep) + sep + join(
            parts.skip(i),
            sep,
        ),
        parts.len() == 1 ==> join(parts, sep) == parts[0],
        parts.len() == 0 ==> join(parts, sep).len() == 0,
    decreases parts.len(),
{
    if 0 < i < parts.len() {
        let head = parts.drop_last();
        if i == parts.len() - 1 {
            assert(parts.take(i) =~= head);
            assert(parts.skip(i) =~= seq![parts.last()]);
        } else {
            joining_goes_piece_by_piece(head, sep, i);
            assert(head.take(i) =~= parts.take(i));
            assert(parts.skip(i).drop_last() =~= head.skip(i));
            assert(parts.skip(i).last() == parts.last());
            assert(join(parts, sep) =~= join(parts.take(i), sep) + sep + join(parts.skip(i), sep));
        }
    }
}

/// A text is blank when each part of it is: nothing at all is, and a character alone exactly when
/// it is white space.
pub proof fn blank_goes_by_characters(a: Seq<char>, b: Seq<char>, c: char)
    ensures
        blank(Seq::empty()),
        blank(seq![c]) <==> white_space(c),
        blank(a + b) <==> blank(a) && blank(b),
{
    assert(seq![c][0] == c);
    let s = a + b;
    if blank(s) {
        assert forall|i: int| 0 <= i < a.len() implies white_space(#[trigger] a[i]) by {
            assert(s[i] == a[i]);
        }
        assert forall|i: int| 0 <= i < b.len() implies white_space(#[trigger] b[i]) by {
            assert(s[a.len() + i] == b[i]);
        }
    }
}

proof fn lemma_cut_behind_break(a: Seq<char>, b: Seq<char>)
    ensures
        cut(a + seq!['\n'] + b).ended == cut(a + seq!['\n']).ended + cut(b).ended,
        cut(a + seq!['\n'] + b).open == cut(b).open,
    decreases b.len(),
{
    let head = a + seq!['\n'];
    let s = head + b;
    if b.len() == 0 {
        assert(s =~= head);
        assert(head.last() == '\n');
        assert(cut(s).ended =~= cut(head).ended + cut(b).ended);
    } else {
        lemma_cut_behind_break(a, b.drop_last());
        assert(s.drop_last() =~= head + b.drop_last());
        assert(s.last() == b.last());
        assert(cut(s).ended =~= cut(head).ended + cut(b).ended);
    }
}

proof fn lemma_cut_without_break(s: Seq<char>)
    requires
        forall|i: int| 0 <= i < s.len() ==> #[trigger] s[i] != '\n',
    ensures
        cut(s).ended.len() == 0,
        cut(s).open == s,
    decreases s.len(),
{
    if s.len() > 0 {
        let head = s.drop_last();
        assert forall|i: int| 0 <= i < head.len() implies #[trigger] head[i] != '\n' by {
            assert(head[i] == s[i]);
        }
        lemma_cut_without_break(head);
        assert(s.last() == s[s.len() - 1]);
        assert(cut(s).open =~= s);
    }
}

/// The lines of a text are those up to a line feed and those behind it, wherever it is cut there.
pub proof fn lines_are_cut_at_line_feeds(a: Seq<char>, b: Seq<char>)
    ensures
        lines(a + seq!['\n'] + b) == lines(a + seq!['\n']) + lines(b),
{
    lemma_cut_behind_break(a, b);
    assert((a + seq!['\n']).last() == '\n');
    assert(lines(a + seq!['\n'] + b) =~= lines(a + seq!['\n']) + lines(b));
}

/// Without a line feed a text is one line, unless it is empty; a line feed ends the line and is
/// no part of it, and neither is a carriage return right before it.
pub proof fn a_line_is_what_stands_before_its_end(s: Seq<char>)
    requires
        forall|i: int| 0 <= i < s.len() ==> #[trigger] s[i] != '\n',
    ensures
        s.len() == 0 ==> lines(s).len() == 0,
        s.len() > 0 ==> lines(s) == seq![s],
        s.len() == 0 || s.last() != '\r' ==> lines(s + seq!['\n']) == seq![s],
        lines(s + seq!['\r', '\n']) == seq![s],
{
    lemma_cut_without_break(s);
    let fed = s + seq!['\n'];
    assert(fed.drop_last() =~= s && fed.last() == '\n');
    if s.len() > 0 {
        assert(lines(s) =~= seq![s]);
    }
    if s.len() == 0 || s.last() != '\r' {
        assert(lines(fed) =~= seq![s]);
    }
    let t = s + seq!['\r'];
    assert forall|i: int| 0 <= i < t.len() implies #[trigger] t[i] != '\n' by {
        if i < s.len() {
            assert(t[i] == s[i]);
        }
    }
    lemma_cut_without_break(t);
    let both = s + seq!['\r', '\n'];
    assert(both.drop_last() =~= t && both.last() == '\n');
    assert(t.drop_last() =~= s && t.last() == '\r');
    assert(lines(both) =~= seq![s]);
}

/// The case of a letter changes by the distance of the two alphabets, and back again; what is no
/// letter of the one alphabet stays.
pub proof fn ascii_case_goes_both_ways(c: char)
    ensures
        'a' <= c <= 'z' ==> 'A' <= ascii_upper(c) <= 'Z' && ascii_lower(ascii_upper(c)) == c
            && ascii_upper(c) as int == c as int - 'a' as int + 'A' as int,
        'A' <= c <= 'Z' ==> 'a' <= ascii_lower(c) <= 'z' && ascii_upper(ascii_lower(c)) == c,
        !('a' <= c <= 'z') ==> ascii_upper(c) == c,
        !('A' <= c <= 'Z') ==> ascii_lower(c) == c,
{
}

} // verus!
