//! Text building blocks: trimming, splitting, joining, searching, and the
//! decimal and hexadecimal forms of integers.

use vstd::prelude::*;

verus! {

/// Names the answer of `char::is_whitespace` outside ASCII: whether a character
/// has the Unicode `White_Space` property.
pub uninterp spec fn unicode_whitespace(c: char) -> bool;

/// Whether a character is whitespace. Among the ASCII characters these are the
/// space and the controls from tab to carriage return.
pub open spec fn whitespace(c: char) -> bool {
    if (c as u32) < 128 {
        c == ' ' || 9 <= (c as u32) <= 13
    } else {
        unicode_whitespace(c)
    }
}

/// Trusted: `char::is_whitespace` accepts, among the ASCII characters, the space
/// and the controls from tab to carriage return, and no other. Elsewhere it is
/// a function of the character alone.
pub assume_specification[ char::is_whitespace ](c: char) -> (r: bool)
    ensures
        (c as u32) < 128 ==> r == (c == ' ' || 9 <= (c as u32) <= 13),
        (c as u32) >= 128 ==> r == unicode_whitespace(c),
;

/// Names the answer of `char::is_alphanumeric` outside ASCII: whether a
/// character is alphabetic or numeric by the Unicode tables.
pub uninterp spec fn unicode_alphanumeric(c: char) -> bool;

/// Whether a character is an ASCII letter or digit.
pub open spec fn ascii_alphanumeric(c: char) -> bool {
    ('a' <= c && c <= 'z') || ('A' <= c && c <= 'Z') || ('0' <= c && c <= '9')
}

/// Whether a character is alphabetic or numeric.
pub open spec fn alphanumeric(c: char) -> bool {
    if (c as u32) < 128 {
        ascii_alphanumeric(c)
    } else {
        unicode_alphanumeric(c)
    }
}

/// Trusted: `char::is_alphanumeric` accepts, among the ASCII characters, the
/// letters and digits, and no other. Elsewhere it is a function of the
/// character alone.
pub assume_specification[ char::is_alphanumeric ](c: char) -> (r: bool)
    ensures
        (c as u32) < 128 ==> r == ascii_alphanumeric(c),
        (c as u32) >= 128 ==> r == unicode_alphanumeric(c),
;

/// Whether every character of a text is ASCII.
pub open spec fn is_ascii_text(s: Seq<char>) -> bool {
    forall|i: int| 0 <= i < s.len() ==> (#[trigger] s[i] as u32) < 128
}

/// The lower case of an ASCII character.
pub open spec fn ascii_lower(c: char) -> char {
    if 'A' <= c && c <= 'Z' {
        ((c as u32 + 32) as u32) as char
    } else {
        c
    }
}

/// The upper case of an ASCII character.
pub open spec fn ascii_upper(c: char) -> char {
    if 'a' <= c && c <= 'z' {
        ((c as u32 - 32) as u32) as char
    } else {
        c
    }
}

/// Names the result of `str::to_lowercase` on a text that is not ASCII.
pub uninterp spec fn unicode_lowercased(s: Seq<char>) -> Seq<char>;

/// A text in lower case: an ASCII text character by character.
pub open spec fn lowercased(s: Seq<char>) -> Seq<char> {
    if is_ascii_text(s) {
        s.map_values(|c: char| ascii_lower(c))
    } else {
        unicode_lowercased(s)
    }
}

/// Trusted: `str::to_lowercase` maps an ASCII text character by character to its
/// ASCII lower case. Elsewhere it is a function of the text alone.
pub assume_specification[ str::to_lowercase ](s: &str) -> (r: String)
    ensures
        is_ascii_text(s@) ==> r@ == s@.map_values(|c: char| ascii_lower(c)),
        !is_ascii_text(s@) ==> r@ == unicode_lowercased(s@),
;

/// Names the result of `str::to_uppercase` on a text that is not ASCII.
pub uninterp spec fn unicode_uppercased(s: Seq<char>) -> Seq<char>;

/// A text in upper case: an ASCII text character by character.
pub open spec fn uppercased(s: Seq<char>) -> Seq<char> {
    if is_ascii_text(s) {
        s.map_values(|c: char| ascii_upper(c))
    } else {
        unicode_uppercased(s)
    }
}

/// Trusted: `str::to_uppercase` maps an ASCII text character by character to its
/// ASCII upper case. Elsewhere it is a function of the text alone.
pub assume_specification[ str::to_uppercase ](s: &str) -> (r: String)
    ensures
        is_ascii_text(s@) ==> r@ == s@.map_values(|c: char| ascii_upper(c)),
        !is_ascii_text(s@) ==> r@ == unicode_uppercased(s@),
;

/// Trusted: `String::push` appends one character.
pub assume_specification[ String::push ](s: &mut String, c: char)
    ensures
        final(s)@ == old(s)@.push(c),
;

// ----------------------------------------------------------------------------
// Characters
// ----------------------------------------------------------------------------

/// The characters of a text, in order.
pub fn to_chars(s: &str) -> (out: Vec<char>)
    ensures
        out@ == s@,
{
    let mut out: Vec<char> = Vec::new();
    for c in it: s.chars()
        invariant
            it.seq() == s@,
            out@ == s@.take(it.index()),
    {
        out.push(c);
        assert(s@.take(it.index() + 1) == s@.take(it.index()).push(c));
    }
    assert(s@.take(s@.len() as int) == s@);
    out
}

/// The text made of the characters `chars[from..to]`.
pub fn from_chars(chars: &Vec<char>, from: usize, to: usize) -> (out: String)
    requires
        from <= to <= chars@.len(),
    ensures
        out@ == chars@.subrange(from as int, to as int),
{
    let mut out = String::new();
    let mut i: usize = from;
    while i < to
        invariant
            from <= i <= to <= chars@.len(),
            out@ == chars@.subrange(from as int, i as int),
        decreases to - i,
    {
        out.push(chars[i]);
        i = i + 1;
        assert(chars@.subrange(from as int, i as int) == chars@.subrange(from as int, i - 1).push(
            chars@[i - 1],
        ));
    }
    out
}

/// Whether two texts are the same.
pub fn same_text(a: &str, b: &str) -> (r: bool)
    ensures
        r == (a@ == b@),
{
    let x = to_chars(a);
    let y = to_chars(b);
    if x.len() != y.len() {
        return false;
    }
    let mut i: usize = 0;
    while i < x.len()
        invariant
            i <= x@.len() == y@.len(),
            x@ == a@,
            y@ == b@,
            forall|k: int| 0 <= k < i ==> x@[k] == y@[k],
        decreases x@.len() - i,
    {
        if x[i] != y[i] {
            return false;
        }
        i = i + 1;
    }
    assert(x@ =~= y@);
    true
}

/// Whether a text holds a character.
pub fn contains_char(s: &str, c: char) -> (r: bool)
    ensures
        r == s@.contains(c),
{
    let x = to_chars(s);
    let mut i: usize = 0;
    while i < x.len()
        invariant
            i <= x@.len(),
            x@ == s@,
            forall|k: int| 0 <= k < i ==> x@[k] != c,
        decreases x@.len() - i,
    {
        if x[i] == c {
            assert(s@[i as int] == c);
            return true;
        }
        i = i + 1;
    }
    false
}

/// Whether one text starts another.
pub open spec fn starts_with_spec(s: Seq<char>, prefix: Seq<char>) -> bool {
    prefix.len() <= s.len() && s.take(prefix.len() as int) == prefix
}

/// Whether `s` starts with `prefix`.
pub fn starts_with(s: &str, prefix: &str) -> (r: bool)
    ensures
        r == starts_with_spec(s@, prefix@),
{
    let x = to_chars(s);
    let p = to_chars(prefix);
    if p.len() > x.len() {
        return false;
    }
    let mut i: usize = 0;
    while i < p.len()
        invariant
            i <= p@.len() <= x@.len(),
            x@ == s@,
            p@ == prefix@,
            forall|k: int| 0 <= k < i ==> x@[k] == p@[k],
        decreases p@.len() - i,
    {
        if x[i] != p[i] {
            assert(s@.take(p@.len() as int)[i as int] != prefix@[i as int]);
            return false;
        }
        i = i + 1;
    }
    assert(s@.take(p@.len() as int) =~= prefix@);
    true
}

/// A text with every occurrence of one character replaced by another.
pub open spec fn replace_char_spec(s: Seq<char>, from: char, to: char) -> Seq<char> {
    s.map_values(|c: char| if c == from { to } else { c })
}

/// Replaces every `from` by `to`.
pub fn replace_char(s: &str, from: char, to: char) -> (out: String)
    ensures
        out@ == replace_char_spec(s@, from, to),
{
    let x = to_chars(s);
    let mut out = String::new();
    let mut i: usize = 0;
    while i < x.len()
        invariant
            i <= x@.len(),
            x@ == s@,
            out@ == replace_char_spec(s@, from, to).take(i as int),
        decreases x@.len() - i,
    {
        let c = x[i];
        out.push(if c == from { to } else { c });
        i = i + 1;
        assert(replace_char_spec(s@, from, to).take(i as int) == replace_char_spec(
            s@,
            from,
            to,
        ).take(i - 1).push(replace_char_spec(s@, from, to)[i - 1]));
    }
    assert(replace_char_spec(s@, from, to).take(i as int) == replace_char_spec(s@, from, to));
    out
}

// ----------------------------------------------------------------------------
// Trimming
// ----------------------------------------------------------------------------

/// A text without its leading whitespace.
pub open spec fn trim_start_spec(s: Seq<char>) -> Seq<char>
    decreases s.len(),
{
    if s.len() > 0 && whitespace(s[0]) {
        trim_start_spec(s.skip(1))
    } else {
        s
    }
}

/// A text without its trailing whitespace.
pub open spec fn trim_end_spec(s: Seq<char>) -> Seq<char>
    decreases s.len(),
{
    if s.len() > 0 && whitespace(s.last()) {
        trim_end_spec(s.drop_last())
    } else {
        s
    }
}

/// A text without its leading and trailing whitespace.
pub open spec fn trim_spec(s: Seq<char>) -> Seq<char> {
    trim_end_spec(trim_start_spec(s))
}

/// A text that trimming leaves as it is.
pub open spec fn is_trimmed(s: Seq<char>) -> bool {
    s.len() > 0 ==> !whitespace(s[0]) && !whitespace(s.last())
}

proof fn lemma_trim_start(s: Seq<char>)
    ensures
        trim_start_spec(s).len() <= s.len(),
        trim_start_spec(s) == s.skip(s.len() - trim_start_spec(s).len()),
        trim_start_spec(s).len() > 0 ==> !whitespace(trim_start_spec(s)[0]),
    decreases s.len(),
{
    if s.len() > 0 && whitespace(s[0]) {
        lemma_trim_start(s.skip(1));
        let t = trim_start_spec(s.skip(1));
        assert(s.skip(1).skip(s.len() - 1 - t.len()) =~= s.skip(s.len() - t.len()));
    } else {
        assert(s.skip(0) =~= s);
    }
}

proof fn lemma_trim_end(s: Seq<char>)
    ensures
        trim_end_spec(s).len() <= s.len(),
        trim_end_spec(s) == s.take(trim_end_spec(s).len() as int),
        trim_end_spec(s).len() > 0 ==> !whitespace(trim_end_spec(s).last()),
    decreases s.len(),
{
    if s.len() > 0 && whitespace(s.last()) {
        lemma_trim_end(s.drop_last());
        let t = trim_end_spec(s.drop_last());
        assert(s.drop_last().take(t.len() as int) =~= s.take(t.len() as int));
    } else {
        assert(s.take(s.len() as int) =~= s);
    }
}

/// A trimmed text has no whitespace at either end, is a stretch of the text it
/// came from, and is left alone by a second trim.
pub proof fn lemma_trim(s: Seq<char>)
    ensures
        is_trimmed(trim_spec(s)),
        trim_spec(trim_spec(s)) == trim_spec(s),
        exists|a: int, b: int| 0 <= a <= b <= s.len() && trim_spec(s) == s.subrange(a, b),
{
    let t = trim_start_spec(s);
    let u = trim_end_spec(t);
    lemma_trim_start(s);
    lemma_trim_end(t);
    lemma_trim_start(u);
    lemma_trim_end(u);
    let a = s.len() - t.len();
    let b = a + u.len();
    assert(u =~= s.subrange(a, b));
    if u.len() > 0 {
        assert(u[0] == t[0]);
    }
}

/// Every character of a trimmed text stands in the text that was trimmed.
pub proof fn lemma_trim_chars(s: Seq<char>, c: char)
    requires
        trim_spec(s).contains(c),
    ensures
        s.contains(c),
{
    lemma_trim(s);
    let (a, b) = choose|a: int, b: int|
        0 <= a <= b <= s.len() && trim_spec(s) == s.subrange(a, b);
    let k = choose|k: int| 0 <= k < trim_spec(s).len() && trim_spec(s)[k] == c;
    assert(s[a + k] == c);
}

/// Trimming leaves a text alone when no whitespace stands at its ends.
pub proof fn lemma_trim_fixed(s: Seq<char>)
    requires
        is_trimmed(s),
    ensures
        trim_spec(s) == s,
{
}

/// Removes the whitespace at both ends of a text.
pub fn trim(s: &str) -> (out: String)
    ensures
        out@ == trim_spec(s@),
{
    let x = to_chars(s);
    let mut a: usize = 0;
    assert(s@.skip(0) =~= s@);
    while a < x.len() && x[a].is_whitespace()
        invariant
            a <= x@.len(),
            x@ == s@,
            trim_start_spec(s@) == trim_start_spec(s@.skip(a as int)),
        ensures
            a <= x@.len(),
            trim_start_spec(s@) == s@.skip(a as int),
        decreases x@.len() - a,
    {
        assert(s@.skip(a as int).skip(1) =~= s@.skip(a + 1));
        a = a + 1;
    }
    let ghost t = s@.skip(a as int);
    let mut b: usize = x.len();
    assert(t.take(b - a) =~= t);
    while b > a && x[b - 1].is_whitespace()
        invariant
            a <= b <= x@.len(),
            x@ == s@,
            t == s@.skip(a as int),
            trim_end_spec(t) == trim_end_spec(t.take(b - a)),
        ensures
            a <= b <= x@.len(),
            trim_end_spec(t) == t.take(b - a),
        decreases b,
    {
        assert(t.take(b - a).drop_last() =~= t.take(b - 1 - a));
        b = b - 1;
    }
    assert(t.take(b - a) =~= x@.subrange(a as int, b as int));
    from_chars(&x, a, b)
}

// ----------------------------------------------------------------------------
// Splitting and joining
// ----------------------------------------------------------------------------

/// The pieces of a text between the occurrences of a separator: each character
/// either is a separator, which opens a new piece, or extends the last piece.
pub open spec fn split_spec(s: Seq<char>, sep: char) -> Seq<Seq<char>>
    decreases s.len(),
{
    if s.len() == 0 {
        seq![Seq::<char>::empty()]
    } else {
        let before = split_spec(s.drop_last(), sep);
        if s.last() == sep {
            before.push(Seq::<char>::empty())
        } else {
            before.update(before.len() - 1, before.last().push(s.last()))
        }
    }
}

/// The texts of a list of strings.
pub open spec fn texts(parts: Seq<String>) -> Seq<Seq<char>> {
    parts.map_values(|p: String| p@)
}

/// Every text has at least one piece, and no piece holds the separator.
pub proof fn lemma_split(s: Seq<char>, sep: char)
    ensures
        split_spec(s, sep).len() >= 1,
        forall|i: int|
            0 <= i < split_spec(s, sep).len() ==> !(#[trigger] split_spec(s, sep)[i]).contains(sep),
    decreases s.len(),
{
    if s.len() > 0 {
        lemma_split(s.drop_last(), sep);
        let before = split_spec(s.drop_last(), sep);
        assert forall|i: int| 0 <= i < split_spec(s, sep).len() implies !(
        #[trigger] split_spec(s, sep)[i]).contains(sep) by {
            if i < before.len() {
                assert(!before[i].contains(sep));
            }
            if s.last() != sep && i == before.len() - 1 {
                let piece = before.last().push(s.last());
                assert forall|k: int| 0 <= k < piece.len() implies piece[k] != sep by {
                    if k < before.last().len() {
                        assert(before.last().contains(before.last()[k]));
                    }
                }
            }
        }
    }
}

/// Every character of a piece stands in the text that was split.
pub proof fn lemma_split_chars(s: Seq<char>, sep: char, i: int, c: char)
    requires
        0 <= i < split_spec(s, sep).len(),
        split_spec(s, sep)[i].contains(c),
    ensures
        s.contains(c),
    decreases s.len(),
{
    if s.len() > 0 {
        let front = s.drop_last();
        let before = split_spec(front, sep);
        lemma_split(front, sep);
        let piece = split_spec(s, sep)[i];
        let k = choose|k: int| 0 <= k < piece.len() && piece[k] == c;
        if s.last() != sep && i == before.len() - 1 && k == piece.len() - 1 {
            assert(s[s.len() - 1] == c);
        } else if i < before.len() {
            assert(before[i][k] == c);
            lemma_split_chars(front, sep, i, c);
            let j = choose|j: int| 0 <= j < front.len() && front[j] == c;
            assert(s[j] == c);
        }
    }
}

/// Splits a text at every occurrence of a separator.
pub fn split(s: &str, sep: char) -> (out: Vec<String>)
    ensures
        texts(out@) == split_spec(s@, sep),
{
    let x = to_chars(s);
    let mut out: Vec<String> = Vec::new();
    let mut piece = String::new();
    let mut i: usize = 0;
    assert(texts(out@).push(piece@) =~= split_spec(s@.take(0), sep));
    while i < x.len()
        invariant
            i <= x@.len(),
            x@ == s@,
            texts(out@).push(piece@) == split_spec(s@.take(i as int), sep),
        decreases x@.len() - i,
    {
        let c = x[i];
        let ghost before = texts(out@).push(piece@);
        assert(s@.take(i + 1).drop_last() =~= s@.take(i as int));
        if c == sep {
            let mut done = String::new();
            std::mem::swap(&mut done, &mut piece);
            out.push(done);
            assert(texts(out@) =~= before);
        } else {
            piece.push(c);
            assert(texts(out@).push(piece@) =~= before.update(
                before.len() - 1,
                before.last().push(c),
            ));
        }
        i = i + 1;
    }
    assert(s@.take(i as int) =~= s@);
    let ghost before = texts(out@).push(piece@);
    out.push(piece);
    assert(texts(out@) =~= before);
    out
}

/// The pieces of a list put together, with a separator between neighbours.
pub open spec fn join_spec(parts: Seq<Seq<char>>, sep: Seq<char>) -> Seq<char>
    decreases parts.len(),
{
    if parts.len() == 0 {
        Seq::empty()
    } else if parts.len() == 1 {
        parts[0]
    } else {
        join_spec(parts.drop_last(), sep) + sep + parts.last()
    }
}

/// Joins the parts with a separator between neighbours.
pub fn join(parts: &Vec<String>, sep: &str) -> (out: String)
    ensures
        out@ == join_spec(texts(parts@), sep@),
{
    let mut out = String::new();
    let mut i: usize = 0;
    while i < parts.len()
        invariant
            i <= parts@.len(),
            out@ == join_spec(texts(parts@).take(i as int), sep@),
        decreases parts@.len() - i,
    {
        if i > 0 {
            out.append(sep);
        }
        out.append(parts[i].as_str());
        assert(texts(parts@).take(i + 1).drop_last() =~= texts(parts@).take(i as int));
        assert(texts(parts@).take(i + 1).last() == parts@[i as int]@);
        if i == 0 {
            assert(out@ =~= parts@[0]@);
        }
        i = i + 1;
    }
    assert(texts(parts@).take(i as int) =~= texts(parts@));
    out
}

/// Splitting what was joined gives the parts back, if no part holds the
/// separator.
pub proof fn lemma_split_of_join(parts: Seq<Seq<char>>, sep: char)
    requires
        parts.len() >= 1,
        forall|i: int| 0 <= i < parts.len() ==> !(#[trigger] parts[i]).contains(sep),
    ensures
        split_spec(join_spec(parts, seq![sep]), sep) == parts,
    decreases parts.len(),
{
    if parts.len() == 1 {
        lemma_split_append(Seq::empty(), parts[0], sep);
        assert(Seq::<char>::empty() + parts[0] =~= parts[0]);
        assert(split_spec(Seq::<char>::empty(), sep) =~= seq![Seq::<char>::empty()]);
        assert(split_spec(parts[0], sep) =~= parts);
    } else {
        let front = parts.drop_last();
        assert forall|i: int| 0 <= i < front.len() implies !(#[trigger] front[i]).contains(sep) by {
            assert(front[i] == parts[i]);
        }
        lemma_split_of_join(front, sep);
        let head = join_spec(front, seq![sep]) + seq![sep];
        assert(head.drop_last() =~= join_spec(front, seq![sep]));
        assert(split_spec(head, sep) == front.push(Seq::empty()));
        assert(!parts.last().contains(sep));
        lemma_split_append(head, parts.last(), sep);
        assert(split_spec(head + parts.last(), sep) =~= parts);
    }
}

/// Text without the separator extends the last piece.
pub proof fn lemma_split_append(head: Seq<char>, tail: Seq<char>, sep: char)
    requires
        !tail.contains(sep),
    ensures
        split_spec(head, sep).len() >= 1,
        split_spec(head + tail, sep) == split_spec(head, sep).update(
            split_spec(head, sep).len() - 1,
            split_spec(head, sep).last() + tail,
        ),
    decreases tail.len(),
{
    lemma_split(head, sep);
    let pieces = split_spec(head, sep);
    if tail.len() == 0 {
        assert(head + tail =~= head);
        assert(pieces.last() + tail =~= pieces.last());
        assert(pieces.update(pieces.len() - 1, pieces.last()) =~= pieces);
    } else {
        let rest = tail.drop_last();
        assert forall|i: int| 0 <= i < rest.len() implies rest[i] != sep by {
            assert(tail.contains(tail[i]));
        }
        lemma_split_append(head, rest, sep);
        assert((head + tail).drop_last() =~= head + rest);
        assert(tail.contains(tail.last()));
        assert((pieces.last() + rest).push(tail.last()) =~= pieces.last() + tail);
        assert(split_spec(head + tail, sep) =~= pieces.update(
            pieces.len() - 1,
            pieces.last() + tail,
        ));
    }
}

proof fn lemma_join_ends(parts: Seq<Seq<char>>, sep: char)
    requires
        parts.len() >= 1,
        forall|i: int| 0 <= i < parts.len() ==> (#[trigger] parts[i]).len() > 0,
    ensures
        join_spec(parts, seq![sep]).len() > 0,
        join_spec(parts, seq![sep])[0] == parts[0][0],
        join_spec(parts, seq![sep]).last() == parts.last().last(),
    decreases parts.len(),
{
    assert(parts[0].len() > 0);
    if parts.len() > 1 {
        let front = parts.drop_last();
        assert forall|i: int| 0 <= i < front.len() implies (#[trigger] front[i]).len() > 0 by {
            assert(parts[i].len() > 0);
        }
        lemma_join_ends(front, sep);
        assert(parts[parts.len() - 1].len() > 0);
    }
}

proof fn lemma_join_chars(parts: Seq<Seq<char>>, sep: char, c: char)
    requires
        join_spec(parts, seq![sep]).contains(c),
    ensures
        c == sep || exists|i: int| 0 <= i < parts.len() && (#[trigger] parts[i]).contains(c),
    decreases parts.len(),
{
    if parts.len() > 1 {
        let front = parts.drop_last();
        let head = join_spec(front, seq![sep]);
        let whole = join_spec(parts, seq![sep]);
        let k = choose|k: int| 0 <= k < whole.len() && whole[k] == c;
        if k < head.len() {
            assert(head[k] == c);
            assert(head.contains(c));
            lemma_join_chars(front, sep, c);
            if c != sep {
                let i = choose|i: int| 0 <= i < front.len() && (#[trigger] front[i]).contains(c);
                assert(parts[i].contains(c));
            }
        } else if k > head.len() {
            assert(parts[parts.len() - 1][k - head.len() - 1] == c);
            assert(parts[parts.len() - 1].contains(c));
        }
    } else if parts.len() == 1 {
        assert(parts[0].contains(c));
    }
}

/// Joined parts, none of them empty, start and end with their own characters,
/// and hold no others but the separator.
pub proof fn lemma_join(parts: Seq<Seq<char>>, sep: char)
    requires
        parts.len() >= 1,
        forall|i: int| 0 <= i < parts.len() ==> (#[trigger] parts[i]).len() > 0,
    ensures
        join_spec(parts, seq![sep]).len() > 0,
        join_spec(parts, seq![sep])[0] == parts[0][0],
        join_spec(parts, seq![sep]).last() == parts.last().last(),
        forall|c: char| #[trigger]
            join_spec(parts, seq![sep]).contains(c) ==> c == sep || exists|i: int|
                0 <= i < parts.len() && (#[trigger] parts[i]).contains(c),
{
    lemma_join_ends(parts, sep);
    assert forall|c: char| #[trigger] join_spec(parts, seq![sep]).contains(c) implies c == sep
        || exists|i: int| 0 <= i < parts.len() && (#[trigger] parts[i]).contains(c) by {
        lemma_join_chars(parts, sep, c);
    }
}

// ----------------------------------------------------------------------------
// Numbers
// ----------------------------------------------------------------------------

/// The character of a decimal digit.
pub open spec fn digit_char_spec(d: nat) -> char {
    ((48 + d) as u32) as char
}

/// The character of a decimal digit.
pub fn digit_char(d: u8) -> (c: char)
    requires
        d < 10,
    ensures
        c == digit_char_spec(d as nat),
{
    (48 + d) as char
}

/// The decimal form of a number, without leading zeros.
pub open spec fn decimal(n: nat) -> Seq<char>
    decreases n,
{
    if n < 10 {
        seq![digit_char_spec(n)]
    } else {
        decimal(n / 10).push(digit_char_spec(n % 10))
    }
}

/// Appends the decimal form of `n`.
pub fn push_decimal(out: &mut String, n: u64)
    ensures
        final(out)@ == old(out)@ + decimal(n as nat),
    decreases n,
{
    if n >= 10 {
        push_decimal(out, n / 10);
    }
    out.push(digit_char((n % 10) as u8));
    assert(out@ =~= old(out)@ + decimal(n as nat));
}

/// A text filled up with zeros on the left to a least width.
pub open spec fn zero_padded(s: Seq<char>, width: nat) -> Seq<char> {
    if s.len() >= width {
        s
    } else {
        Seq::new((width - s.len()) as nat, |i: int| '0') + s
    }
}

/// Appends the decimal form of `n`, filled up with zeros to `width`.
pub fn push_padded_decimal(out: &mut String, n: u64, width: usize)
    ensures
        final(out)@ == old(out)@ + zero_padded(decimal(n as nat), width as nat),
{
    let mut form = String::new();
    push_decimal(&mut form, n);
    assert(form@ =~= decimal(n as nat));
    let len: usize = form.as_str().unicode_len();
    let mut i: usize = len;
    assert(out@ =~= old(out)@ + Seq::new(0, |i: int| '0'));
    while i < width
        invariant
            len == decimal(n as nat).len(),
            len <= i,
            i <= width || i == len,
            out@ == old(out)@ + Seq::new((i - len) as nat, |i: int| '0'),
        decreases width - i,
    {
        out.push('0');
        i = i + 1;
        assert(old(out)@ + Seq::new((i - len) as nat, |i: int| '0') =~= (old(out)@ + Seq::new(
            (i - 1 - len) as nat,
            |i: int| '0',
        )).push('0'));
    }
    out.append(form.as_str());
    assert(out@ =~= old(out)@ + zero_padded(decimal(n as nat), width as nat));
}

/// The decimal form of a number as a string of its own.
pub fn decimal_string(n: u64) -> (out: String)
    ensures
        out@ == decimal(n as nat),
{
    let mut out = String::new();
    push_decimal(&mut out, n);
    assert(out@ =~= decimal(n as nat));
    out
}

/// Every character of a decimal form is a digit, and there is at least one.
pub proof fn lemma_decimal_digits(n: nat)
    ensures
        decimal(n).len() >= 1,
        forall|i: int| 0 <= i < decimal(n).len() ==> '0' <= #[trigger] decimal(n)[i] <= '9',
    decreases n,
{
    if n >= 10 {
        lemma_decimal_digits(n / 10);
    }
}

/// Different numbers have different decimal forms.
pub proof fn lemma_decimal_injective(a: nat, b: nat)
    requires
        decimal(a) == decimal(b),
    ensures
        a == b,
    decreases a,
{
    lemma_decimal_digits(a / 10);
    lemma_decimal_digits(b / 10);
    assert(decimal(a).last() == digit_char_spec(a % 10));
    assert(decimal(b).last() == digit_char_spec(b % 10));
    if a >= 10 && b >= 10 {
        assert(decimal(a).drop_last() =~= decimal(a / 10));
        assert(decimal(b).drop_last() =~= decimal(b / 10));
        lemma_decimal_injective(a / 10, b / 10);
    } else if a >= 10 {
        assert(decimal(a).len() >= 2);
    } else if b >= 10 {
        assert(decimal(b).len() >= 2);
    }
}

/// The value of a text made of decimal digits.
pub open spec fn digits_value(s: Seq<char>) -> nat
    decreases s.len(),
{
    if s.len() == 0 {
        0
    } else {
        digits_value(s.drop_last()) * 10 + (s.last() as u32 - 48) as nat
    }
}

/// Whether a character is a decimal digit.
pub open spec fn is_digit(c: char) -> bool {
    '0' <= c && c <= '9'
}

/// The part of a number's text that follows an optional plus sign.
pub open spec fn unsigned_digits(s: Seq<char>) -> Seq<char> {
    if s.len() > 0 && s[0] == '+' {
        s.skip(1)
    } else {
        s
    }
}

/// The number that a text spells: digits only, at least one, after an optional
/// plus sign, with a value of at most `limit`.
pub open spec fn parse_unsigned_spec(s: Seq<char>, limit: nat) -> Option<nat> {
    let digits = unsigned_digits(s);
    if digits.len() > 0 && (forall|i: int| 0 <= i < digits.len() ==> is_digit(#[trigger] digits[i]))
        && digits_value(digits) <= limit {
        Some(digits_value(digits))
    } else {
        None
    }
}

proof fn lemma_digits_value_monotonic(s: Seq<char>, i: int)
    requires
        0 <= i <= s.len(),
        forall|k: int| 0 <= k < s.len() ==> is_digit(#[trigger] s[k]),
    ensures
        digits_value(s.take(i)) <= digits_value(s),
    decreases s.len(),
{
    if i < s.len() {
        lemma_digits_value_monotonic(s.drop_last(), i);
        assert(s.drop_last().take(i) =~= s.take(i));
        assert(digits_value(s.drop_last()) * 10 >= digits_value(s.drop_last()));
    } else {
        assert(s.take(i) =~= s);
    }
}

/// Reads an unsigned number that must fit in a `usize`.
pub fn parse_usize(s: &str) -> (r: Option<usize>)
    ensures
        match r {
            Some(v) => parse_unsigned_spec(s@, usize::MAX as nat) == Some(v as nat),
            None => parse_unsigned_spec(s@, usize::MAX as nat) is None,
        },
{
    let x = to_chars(s);
    let start: usize = if x.len() > 0 && x[0] == '+' {
        1
    } else {
        0
    };
    let ghost digits = unsigned_digits(s@);
    assert(digits =~= x@.skip(start as int));
    if start == x.len() {
        return None;
    }
    let mut value: usize = 0;
    let mut i: usize = start;
    assert(digits.take(0) =~= Seq::<char>::empty());
    while i < x.len()
        invariant
            start <= i <= x@.len(),
            x@ == s@,
            digits == unsigned_digits(s@),
            digits == x@.skip(start as int),
            value == digits_value(digits.take(i - start)),
            forall|k: int| 0 <= k < i - start ==> is_digit(#[trigger] digits[k]),
        decreases x@.len() - i,
    {
        let c = x[i];
        assert(c == digits[i - start]);
        if c < '0' || c > '9' {
            assert(!is_digit(digits[i - start]));
            return None;
        }
        let d: usize = (c as u32 - 48) as usize;
        assert(digits.take(i + 1 - start).drop_last() =~= digits.take(i - start));
        assert(digits_value(digits.take(i + 1 - start)) == value * 10 + d);
        if value > usize::MAX / 10 || value * 10 > usize::MAX - d {
            proof {
                if forall|k: int| 0 <= k < digits.len() ==> is_digit(#[trigger] digits[k]) {
                    lemma_digits_value_monotonic(digits, i + 1 - start);
                }
            }
            return None;
        }
        value = value * 10 + d;
        i = i + 1;
    }
    assert(digits.take(i - start) =~= digits);
    Some(value)
}

/// The character of a hexadecimal digit, in lower case.
pub open spec fn hex_char_spec(d: nat) -> char {
    if d < 10 {
        ((48 + d) as u32) as char
    } else {
        ((87 + d) as u32) as char
    }
}

/// The character of a hexadecimal digit, in lower case.
pub fn hex_nibble(nibble: u8) -> (c: char)
    requires
        nibble < 16,
    ensures
        c == hex_char_spec(nibble as nat),
{
    if nibble < 10 {
        (48 + nibble) as char
    } else {
        (87 + nibble) as char
    }
}

/// The lowest `width` hexadecimal digits of a number, most significant first.
pub open spec fn hex_fixed(n: nat, width: nat) -> Seq<char>
    decreases width,
{
    if width == 0 {
        Seq::empty()
    } else {
        hex_fixed(n / 16, (width - 1) as nat).push(hex_char_spec(n % 16))
    }
}

/// Appends the lowest `width` hexadecimal digits of `n`.
pub fn push_hex_fixed(out: &mut String, n: u64, width: usize)
    ensures
        final(out)@ == old(out)@ + hex_fixed(n as nat, width as nat),
    decreases width,
{
    if width > 0 {
        push_hex_fixed(out, n / 16, width - 1);
        out.push(hex_nibble((n % 16) as u8));
    }
    assert(out@ =~= old(out)@ + hex_fixed(n as nat, width as nat));
}

// ----------------------------------------------------------------------------
// Searching
// ----------------------------------------------------------------------------

/// Whether `needle` stands in `s` at position `i`.
pub open spec fn occurs_at(s: Seq<char>, needle: Seq<char>, i: int) -> bool {
    0 <= i && i + needle.len() <= s.len() && s.subrange(i, i + needle.len()) == needle
}

/// Whether position `i` is the first at which `needle` stands in `s`.
pub open spec fn first_occurrence(s: Seq<char>, needle: Seq<char>, i: int) -> bool {
    occurs_at(s, needle, i) && forall|k: int| 0 <= k < i ==> !#[trigger] occurs_at(s, needle, k)
}

/// Finds the first position, not before `from`, at which `needle` stands.
pub fn find_from(s: &Vec<char>, needle: &Vec<char>, from: usize) -> (r: Option<usize>)
    requires
        from <= s@.len(),
    ensures
        match r {
            Some(i) => first_occurrence(s@.skip(from as int), needle@, i - from) && from <= i && i
                + needle@.len() <= s@.len(),
            None => forall|k: int| !#[trigger] occurs_at(s@.skip(from as int), needle@, k),
        },
{
    let ghost t = s@.skip(from as int);
    if needle.len() > s.len() - from {
        return None;
    }
    let last: usize = s.len() - needle.len();
    let mut i: usize = from;
    while i <= last
        invariant
            from <= i <= last + 1,
            last + needle@.len() == s@.len() <= usize::MAX,
            t == s@.skip(from as int),
            forall|k: int| 0 <= k < i - from ==> !#[trigger] occurs_at(t, needle@, k),
        decreases last + 1 - i,
    {
        let mut j: usize = 0;
        while j < needle.len() && s[i + j] == needle[j]
            invariant
                j <= needle@.len(),
                i <= last,
                last + needle@.len() == s@.len() <= usize::MAX,
                forall|k: int| 0 <= k < j ==> s@[i + k] == needle@[k],
            ensures
                j <= needle@.len(),
                forall|k: int| 0 <= k < j ==> s@[i + k] == needle@[k],
                j < needle@.len() ==> s@[i + j] != needle@[j as int],
            decreases needle@.len() - j,
        {
            j = j + 1;
        }
        let ghost window = t.subrange(i - from, i - from + needle@.len());
        if j == needle.len() {
            assert(window =~= needle@);
            assert(occurs_at(t, needle@, i - from));
            return Some(i);
        }
        assert(window[j as int] == s@[i + j]);
        assert(!occurs_at(t, needle@, i - from));
        if i == last {
            assert forall|k: int| !#[trigger] occurs_at(t, needle@, k) by {}
            return None;
        }
        i = i + 1;
    }
    None
}

// ----------------------------------------------------------------------------
// Laws of numbers
// ----------------------------------------------------------------------------

/// The digits of a number have its value.
pub proof fn lemma_digits_of_decimal(n: nat)
    ensures
        digits_value(decimal(n)) == n,
    decreases n,
{
    if n >= 10 {
        lemma_digits_of_decimal(n / 10);
        assert(decimal(n).drop_last() =~= decimal(n / 10));
        assert(decimal(n).last() == digit_char_spec(n % 10));
    } else {
        assert(decimal(n).drop_last() =~= Seq::<char>::empty());
        assert(digits_value(Seq::<char>::empty()) == 0);
        assert(decimal(n).last() == digit_char_spec(n));
    }
}

/// The decimal form of a number is read back as the number, if it is not over the
/// limit.
pub proof fn lemma_decimal_parses(n: nat, limit: nat)
    ensures
        parse_unsigned_spec(decimal(n), limit) == if n <= limit {
            Some(n)
        } else {
            None
        },
{
    lemma_decimal_digits(n);
    lemma_digits_of_decimal(n);
    assert(decimal(n)[0] != '+');
}

/// The decimal form of a number has no whitespace around it.
pub proof fn lemma_decimal_is_trimmed(n: nat)
    ensures
        trim_spec(decimal(n)) == decimal(n),
{
    lemma_decimal_digits(n);
    lemma_trim_fixed(decimal(n));
}

/// Numbers that fit in the digits have different hexadecimal forms, each of exactly as
/// many digits.
pub proof fn lemma_hex_fixed_injective(a: nat, b: nat, width: nat)
    requires
        a < hex_range(width),
        b < hex_range(width),
        hex_fixed(a, width) == hex_fixed(b, width),
    ensures
        a == b,
    decreases width,
{
    if width > 0 {
        let fa = hex_fixed(a, width);
        let fb = hex_fixed(b, width);
        assert(fa.last() == hex_char_spec(a % 16));
        assert(fb.last() == hex_char_spec(b % 16));
        assert(fa.drop_last() =~= hex_fixed(a / 16, (width - 1) as nat));
        assert(fb.drop_last() =~= hex_fixed(b / 16, (width - 1) as nat));
        lemma_hex_fixed_injective(a / 16, b / 16, (width - 1) as nat);
    }
}

/// How many numbers `width` hexadecimal digits can tell apart.
pub open spec fn hex_range(width: nat) -> nat
    decreases width,
{
    if width == 0 {
        1
    } else {
        16 * hex_range((width - 1) as nat)
    }
}

/// A hexadecimal form has as many characters as asked for, all of them digits or the
/// letters from `a` to `f`.
pub proof fn lemma_hex_fixed_digits(n: nat, width: nat)
    ensures
        hex_fixed(n, width).len() == width,
        forall|i: int|
            0 <= i < width ==> is_digit(#[trigger] hex_fixed(n, width)[i]) || 'a' <= hex_fixed(
                n,
                width,
            )[i] <= 'f',
    decreases width,
{
    if width > 0 {
        lemma_hex_fixed_digits(n / 16, (width - 1) as nat);
    }
}

/// Sixteen digits tell all 64-bit numbers apart.
pub proof fn lemma_hex_range_of_u64()
    ensures
        hex_range(16) == 0x1_0000_0000_0000_0000,
{
    reveal_with_fuel(hex_range, 17);
}

// ----------------------------------------------------------------------------
// Laws of letters
// ----------------------------------------------------------------------------

/// The case of letters makes no difference to an ASCII text in lower case, and every
/// text in lower or upper case keeps its length.
pub proof fn lemma_case_is_dropped(s: Seq<char>)
    requires
        is_ascii_text(s),
    ensures
        lowercased(s).len() == s.len(),
        uppercased(s).len() == s.len(),
        is_ascii_text(lowercased(s)),
        is_ascii_text(uppercased(s)),
        lowercased(lowercased(s)) == lowercased(s),
        lowercased(uppercased(s)) == lowercased(s),
        uppercased(lowercased(s)) == uppercased(s),
        forall|i: int| 0 <= i < s.len() ==> !('A' <= #[trigger] lowercased(s)[i] <= 'Z'),
        forall|i: int| 0 <= i < s.len() ==> !('a' <= #[trigger] uppercased(s)[i] <= 'z'),
{
    assert forall|i: int| 0 <= i < s.len() implies (#[trigger] lowercased(s)[i] as u32) < 128 by {
        assert((s[i] as u32) < 128);
    }
    assert forall|i: int| 0 <= i < s.len() implies (#[trigger] uppercased(s)[i] as u32) < 128 by {
        assert((s[i] as u32) < 128);
    }
    assert(lowercased(lowercased(s)) =~= lowercased(s));
    assert(lowercased(uppercased(s)) =~= lowercased(s));
    assert(uppercased(lowercased(s)) =~= uppercased(s));
}

/// A character that is replaced does not remain; all others stay in their places.
pub proof fn lemma_replaced_characters(s: Seq<char>, from: char, to: char, i: int)
    requires
        0 <= i < s.len(),
    ensures
        replace_char_spec(s, from, to).len() == s.len(),
        s[i] == from ==> replace_char_spec(s, from, to)[i] == to,
        s[i] != from ==> replace_char_spec(s, from, to)[i] == s[i],
{
}

// ----------------------------------------------------------------------------
// Laws of pieces
// ----------------------------------------------------------------------------

/// Whether a text is nothing but whitespace.
pub open spec fn is_blank(s: Seq<char>) -> bool {
    forall|i: int| 0 <= i < s.len() ==> whitespace(#[trigger] s[i])
}

/// Trimming takes the whitespace around a text away, all of it and nothing else.
pub proof fn lemma_trim_takes_whitespace_only(front: Seq<char>, s: Seq<char>, back: Seq<char>)
    requires
        is_blank(front),
        is_blank(back),
        is_trimmed(s),
        s.len() > 0,
    ensures
        trim_spec(front + s + back) == s,
    decreases front.len() + back.len(),
{
    let whole = front + s + back;
    if front.len() > 0 {
        let rest = front.skip(1);
        assert forall|i: int| 0 <= i < rest.len() implies whitespace(#[trigger] rest[i]) by {
            assert(whitespace(front[i + 1]));
        }
        lemma_trim_takes_whitespace_only(rest, s, back);
        assert(whole[0] == front[0]);
        assert(whole.skip(1) =~= rest + s + back);
    } else if back.len() > 0 {
        let rest = back.drop_last();
        assert forall|i: int| 0 <= i < rest.len() implies whitespace(#[trigger] rest[i]) by {
            assert(whitespace(back[i]));
        }
        lemma_trim_takes_whitespace_only(front, s, rest);
        let shorter = front + s + rest;
        assert(whole[0] == s[0]);
        assert(shorter[0] == s[0]);
        assert(whole.last() == back[back.len() - 1]);
        assert(whole.drop_last() =~= shorter);
    } else {
        assert(whole =~= s);
        lemma_trim_fixed(s);
    }
}

/// A text that is split and joined again is the same.
pub proof fn lemma_join_of_split(s: Seq<char>, sep: char)
    ensures
        join_spec(split_spec(s, sep), seq![sep]) == s,
    decreases s.len(),
{
    if s.len() > 0 {
        let front = s.drop_last();
        let before = split_spec(front, sep);
        let pieces = split_spec(s, sep);
        lemma_join_of_split(front, sep);
        lemma_split(front, sep);
        if s.last() == sep {
            assert(pieces.drop_last() =~= before);
            assert(join_spec(pieces, seq![sep]) =~= s);
        } else if before.len() == 1 {
            assert(pieces.len() == 1);
            assert(join_spec(pieces, seq![sep]) =~= s);
        } else {
            let head = join_spec(before.drop_last(), seq![sep]) + seq![sep];
            assert(pieces.drop_last() =~= before.drop_last());
            assert(pieces.last() == before.last().push(s.last()));
            assert(front == head + before.last());
            assert(head + pieces.last() =~= (head + before.last()).push(s.last()));
            assert(front.push(s.last()) =~= s);
        }
    } else {
        assert(join_spec(split_spec(s, sep), seq![sep]) =~= s);
    }
}

/// Joining puts the separator between each part and the next, and nowhere else.
pub proof fn lemma_join_steps(parts: Seq<Seq<char>>, next: Seq<char>, sep: Seq<char>)
    ensures
        join_spec(Seq::empty(), sep) == Seq::<char>::empty(),
        join_spec(seq![next], sep) == next,
        parts.len() > 0 ==> join_spec(parts.push(next), sep) == join_spec(parts, sep) + sep + next,
{
    assert(parts.push(next).drop_last() =~= parts);
}

/// A text starts with whatever it was continued from, and with nothing that differs
/// from its own start.
pub proof fn lemma_starts(prefix: Seq<char>, rest: Seq<char>, other: Seq<char>)
    ensures
        starts_with_spec(prefix + rest, prefix),
        other.len() == prefix.len() && starts_with_spec(prefix + rest, other) ==> other == prefix,
        !starts_with_spec(prefix, prefix + seq!['x']),
{
    assert((prefix + rest).take(prefix.len() as int) =~= prefix);
}

/// A number filled up with zeros keeps its value and has at least the width.
pub proof fn lemma_padding_keeps_the_number(n: nat, width: nat)
    ensures
        zero_padded(decimal(n), width).len() >= width,
        zero_padded(decimal(n), width).len() >= decimal(n).len(),
        decimal(n).len() >= width ==> zero_padded(decimal(n), width) == decimal(n),
        digits_value(zero_padded(decimal(n), width)) == n,
{
    lemma_digits_of_decimal(n);
    if decimal(n).len() < width {
        lemma_leading_zeros((width - decimal(n).len()) as nat, decimal(n));
    }
}

proof fn lemma_leading_zeros(count: nat, s: Seq<char>)
    ensures
        digits_value(Seq::new(count, |i: int| '0') + s) == digits_value(s),
    decreases count + s.len(),
{
    let zeros = Seq::new(count, |i: int| '0');
    let whole = zeros + s;
    if s.len() > 0 {
        lemma_leading_zeros(count, s.drop_last());
        assert(whole.drop_last() =~= zeros + s.drop_last());
        assert(whole.last() == s.last());
    } else if count > 0 {
        let fewer = Seq::new((count - 1) as nat, |i: int| '0');
        lemma_leading_zeros((count - 1) as nat, s);
        assert(whole.drop_last() =~= fewer + s);
        assert(whole.last() == '0');
        assert(digits_value(s) == 0);
    } else {
        assert(whole =~= s);
    }
}

/// Pieces are those before a separator and those behind it.
pub proof fn lemma_split_at_separator(head: Seq<char>, tail: Seq<char>, sep: char)
    ensures
        split_spec(head + seq![sep] + tail, sep) == split_spec(head, sep) + split_spec(tail, sep),
    decreases tail.len(),
{
    let whole = head + seq![sep] + tail;
    if tail.len() == 0 {
        assert(whole =~= head.push(sep));
        assert(whole.drop_last() =~= head);
        assert(split_spec(whole, sep) =~= split_spec(head, sep) + split_spec(tail, sep));
    } else {
        let front = tail.drop_last();
        lemma_split_at_separator(head, front, sep);
        lemma_split(front, sep);
        assert(whole.drop_last() =~= head + seq![sep] + front);
        assert(whole.last() == tail.last());
        assert(split_spec(whole, sep) =~= split_spec(head, sep) + split_spec(tail, sep));
    }
}

/// A text without the separator is one piece.
pub proof fn lemma_split_of_piece(piece: Seq<char>, sep: char)
    requires
        !piece.contains(sep),
    ensures
        split_spec(piece, sep) == seq![piece],
{
    let nothing = Seq::<char>::empty();
    lemma_split_append(nothing, piece, sep);
    assert(nothing + piece =~= piece);
    assert(split_spec(nothing, sep) == seq![nothing]);
    assert(split_spec(piece, sep) =~= seq![piece]);
}

/// Every part of a joined text stands in it.
pub proof fn lemma_joined_parts_occur(parts: Seq<Seq<char>>, sep: Seq<char>, k: int)
    requires
        0 <= k < parts.len(),
    ensures
        exists|i: int| #[trigger] occurs_at(join_spec(parts, sep), parts[k], i),
    decreases parts.len(),
{
    let joined = join_spec(parts, sep);
    if parts.len() == 1 {
        assert(joined.subrange(0, joined.len() as int) =~= parts[k]);
        assert(occurs_at(joined, parts[k], 0));
    } else {
        let front = join_spec(parts.drop_last(), sep);
        if k == parts.len() - 1 {
            let at = (front + sep).len() as int;
            assert(joined.subrange(at, at + parts[k].len()) =~= parts[k]);
            assert(occurs_at(joined, parts[k], at));
        } else {
            lemma_joined_parts_occur(parts.drop_last(), sep, k);
            let at = choose|i: int| #[trigger] occurs_at(front, parts.drop_last()[k], i);
            assert(joined.subrange(at, at + parts[k].len()) =~= front.subrange(
                at,
                at + parts[k].len(),
            ));
            assert(occurs_at(joined, parts[k], at));
        }
    }
}

/// A plus sign in front of a number changes nothing; a second one is refused.
pub proof fn lemma_plus_sign(s: Seq<char>, limit: nat)
    requires
        s.len() == 0 || s[0] != '+',
    ensures
        parse_unsigned_spec(seq!['+'] + s, limit) == parse_unsigned_spec(s, limit),
        parse_unsigned_spec(seq!['+', '+'] + s, limit) is None,
{
    assert((seq!['+'] + s).skip(1) =~= s);
    let twice = (seq!['+', '+'] + s).skip(1);
    assert(twice[0] == '+');
    assert(!is_digit(twice[0]));
}

/// Letters and digits by their codes.
pub proof fn lemma_letters_and_digits(c: char)
    ensures
        is_digit(c) ==> ascii_alphanumeric(c),
        ascii_alphanumeric(c) <==> {
            ||| 48 <= c as u32 <= 57
            ||| 65 <= c as u32 <= 90
            ||| 97 <= c as u32 <= 122
        },
        (c as u32) < 128 ==> alphanumeric(c) == ascii_alphanumeric(c),
{
}

} // verus!
