//! Character and string primitives the rest of the crate is written over.
//!
//! Strings are handled as `Vec<char>` inside verified code, because a `Vec`
//! has an exact view and an exact index operation. The few std facilities
//! whose behaviour rests on the Unicode tables (whitespace, alphanumerics,
//! case mapping) are reached through the small wrappers at the end of this
//! file, each naming its result.

use vstd::prelude::*;

verus! {

/// Whether `c` is an ASCII decimal digit.
pub open spec fn is_digit(c: char) -> bool {
    '0' <= c && c <= '9'
}

/// The value of an ASCII decimal digit.
pub open spec fn digit_value(c: char) -> int {
    c as int - '0' as int
}

/// The ASCII lowercase of `c`; every other character is unchanged.
pub open spec fn ascii_lower(c: char) -> char {
    if 'A' <= c && c <= 'Z' {
        ((c as u32) + 32) as char
    } else {
        c
    }
}

/// `s` with every ASCII capital replaced by its lowercase.
pub open spec fn ascii_lower_seq(s: Seq<char>) -> Seq<char> {
    s.map_values(|c: char| ascii_lower(c))
}

/// The ASCII lowercase of one character.
pub fn to_ascii_lower(c: char) -> (r: char)
    ensures
        r == ascii_lower(c),
{
    if 'A' <= c && c <= 'Z' {
        let u: u32 = (c as u32) + 32;
        assert(0x61 <= u <= 0x7a);
        char_from_ascii(u)
    } else {
        c
    }
}

/// The character with the code `u`, for a lowercase ASCII letter code.
fn char_from_ascii(u: u32) -> (r: char)
    requires
        0x61 <= u <= 0x7a,
    ensures
        r == u as char,
{
    let b: u8 = u as u8;
    b as char
}

/// `s` lowercased in its ASCII letters.
pub fn ascii_lowercase(s: &Vec<char>) -> (r: Vec<char>)
    ensures
        r@ == ascii_lower_seq(s@),
{
    let mut out: Vec<char> = Vec::new();
    let mut i: usize = 0;
    while i < s.len()
        invariant
            i <= s.len(),
            out@ == ascii_lower_seq(s@.take(i as int)),
        decreases s.len() - i,
    {
        out.push(to_ascii_lower(s[i]));
        proof {
            assert(s@.take(i as int + 1) == s@.take(i as int).push(s@[i as int]));
        }
        i += 1;
    }
    proof {
        assert(s@.take(s@.len() as int) == s@);
    }
    out
}

/// Whether two character sequences are equal.
pub fn chars_eq(a: &Vec<char>, b: &Vec<char>) -> (r: bool)
    ensures
        r == (a@ == b@),
{
    if a.len() != b.len() {
        return false;
    }
    let mut i: usize = 0;
    while i < a.len()
        invariant
            i <= a.len(),
            a.len() == b.len(),
            forall|j: int| 0 <= j < i ==> a@[j] == b@[j],
        decreases a.len() - i,
    {
        if a[i] != b[i] {
            return false;
        }
        i += 1;
    }
    assert(a@ =~= b@);
    true
}

/// Append every character of `src` to `dst`.
pub fn push_all(dst: &mut Vec<char>, src: &Vec<char>)
    ensures
        final(dst)@ == old(dst)@ + src@,
{
    let mut i: usize = 0;
    while i < src.len()
        invariant
            i <= src.len(),
            dst@ == old(dst)@ + src@.take(i as int),
        decreases src.len() - i,
    {
        dst.push(src[i]);
        proof {
            assert(src@.take(i as int + 1) == src@.take(i as int).push(src@[i as int]));
        }
        i += 1;
    }
    proof {
        assert(src@.take(src@.len() as int) == src@);
    }
}

/// The characters of `s[from..to]`.
pub fn slice_chars(s: &Vec<char>, from: usize, to: usize) -> (r: Vec<char>)
    requires
        from <= to <= s.len(),
    ensures
        r@ == s@.subrange(from as int, to as int),
{
    let mut out: Vec<char> = Vec::new();
    let mut i: usize = from;
    while i < to
        invariant
            from <= i <= to <= s.len(),
            out@ == s@.subrange(from as int, i as int),
        decreases to - i,
    {
        out.push(s[i]);
        proof {
            assert(s@.subrange(from as int, i as int + 1) == s@.subrange(from as int, i as int).push(
                s@[i as int],
            ));
        }
        i += 1;
    }
    out
}


// ---------------------------------------------------------------------------
// Whitespace: trimming and splitting
// ---------------------------------------------------------------------------

/// `s` with its leading whitespace removed.
pub open spec fn trim_start(s: Seq<char>) -> Seq<char>
    decreases s.len(),
{
    if s.len() > 0 && unicode_whitespace(s[0]) {
        trim_start(s.drop_first())
    } else {
        s
    }
}

/// `s` with its trailing whitespace removed.
pub open spec fn trim_end(s: Seq<char>) -> Seq<char>
    decreases s.len(),
{
    if s.len() > 0 && unicode_whitespace(s.last()) {
        trim_end(s.drop_last())
    } else {
        s
    }
}

/// `s` with leading and trailing whitespace removed (`str::trim`).
pub open spec fn trim(s: Seq<char>) -> Seq<char> {
    trim_end(trim_start(s))
}

/// Removing a whitespace prefix of length `i` is the trim when the next
/// character is not whitespace.
proof fn lemma_trim_start_at(s: Seq<char>, i: int)
    requires
        0 <= i <= s.len(),
        forall|k: int| 0 <= k < i ==> unicode_whitespace(#[trigger] s[k]),
        i == s.len() || !unicode_whitespace(s[i]),
    ensures
        trim_start(s) == s.subrange(i, s.len() as int),
    decreases i,
{
    if i == 0 {
        assert(s.subrange(0, s.len() as int) == s);
    } else {
        let t = s.drop_first();
        assert forall|k: int| 0 <= k < i - 1 implies unicode_whitespace(#[trigger] t[k]) by {
            assert(t[k] == s[k + 1]);
        }
        lemma_trim_start_at(t, i - 1);
        assert(t.subrange(i - 1, t.len() as int) == s.subrange(i, s.len() as int));
    }
}

/// Removing a whitespace suffix down to length `j` is the trim when the
/// character before is not whitespace.
proof fn lemma_trim_end_at(s: Seq<char>, j: int)
    requires
        0 <= j <= s.len(),
        forall|k: int| j <= k < s.len() ==> unicode_whitespace(#[trigger] s[k]),
        j == 0 || !unicode_whitespace(s[j - 1]),
    ensures
        trim_end(s) == s.subrange(0, j),
    decreases s.len() - j,
{
    if j == s.len() {
        assert(s.subrange(0, j) == s);
    } else {
        let t = s.drop_last();
        assert forall|k: int| j <= k < t.len() implies unicode_whitespace(#[trigger] t[k]) by {
            assert(t[k] == s[k]);
        }
        lemma_trim_end_at(t, j);
        assert(t.subrange(0, j) == s.subrange(0, j));
    }
}

/// Trimming keeps a prefix of what it trims from the end.
proof fn lemma_trim_end_prefix(s: Seq<char>)
    ensures
        trim_end(s).len() <= s.len(),
        trim_end(s) == s.take(trim_end(s).len() as int),
    decreases s.len(),
{
    if s.len() > 0 && unicode_whitespace(s.last()) {
        lemma_trim_end_prefix(s.drop_last());
        assert(s.drop_last().take(trim_end(s).len() as int) == s.take(trim_end(s).len() as int));
    } else {
        assert(s.take(s.len() as int) == s);
    }
}

/// The result of trimming the start is empty or starts with a
/// non-whitespace character.
proof fn lemma_trim_start_clean(s: Seq<char>)
    ensures
        trim_start(s).len() == 0 || !unicode_whitespace(trim_start(s)[0]),
    decreases s.len(),
{
    if s.len() > 0 && unicode_whitespace(s[0]) {
        lemma_trim_start_clean(s.drop_first());
    }
}

/// The result of trimming the end is empty or ends with a non-whitespace
/// character.
proof fn lemma_trim_end_clean(s: Seq<char>)
    ensures
        trim_end(s).len() == 0 || !unicode_whitespace(trim_end(s).last()),
    decreases s.len(),
{
    if s.len() > 0 && unicode_whitespace(s.last()) {
        lemma_trim_end_clean(s.drop_last());
    }
}

/// Trimming twice trims once.
pub proof fn lemma_trim_idempotent(s: Seq<char>)
    ensures
        trim(trim(s)) == trim(s),
{
    let u = trim_start(s);
    let v = trim_end(u);
    lemma_trim_start_clean(s);
    lemma_trim_end_prefix(u);
    lemma_trim_end_clean(u);
    if v.len() > 0 {
        assert(v[0] == u[0]);
    }
    assert(trim_start(v) == v);
    assert(trim_end(v) == v);
}

/// Trimming never lengthens, and shortens text that starts with whitespace.
proof fn lemma_trim_start_len(s: Seq<char>)
    ensures
        trim_start(s).len() <= s.len(),
        s.len() > 0 && unicode_whitespace(s[0]) ==> trim_start(s).len() < s.len(),
    decreases s.len(),
{
    if s.len() > 0 && unicode_whitespace(s[0]) {
        lemma_trim_start_len(s.drop_first());
    }
}

/// Text that trimming leaves alone neither starts nor ends with whitespace.
pub proof fn lemma_trimmed_ends(s: Seq<char>)
    requires
        trim(s) == s,
        s.len() > 0,
    ensures
        !unicode_whitespace(s[0]),
        !unicode_whitespace(s.last()),
{
    lemma_trim_start_len(s);
    lemma_trim_end_prefix(trim_start(s));
    lemma_trim_end_clean(trim_start(s));
}

/// Text that neither starts nor ends with whitespace is its own trim.
pub proof fn lemma_trim_fixed(s: Seq<char>)
    requires
        s.len() == 0 || (!unicode_whitespace(s[0]) && !unicode_whitespace(s.last())),
    ensures
        trim(s) == s,
{
    if s.len() > 0 {
        assert(trim_start(s) == s);
    }
}

/// Non-empty words joined by a separator start with the first word's first
/// character and end with the last word's last character.
pub proof fn lemma_join_ends(ws: Seq<Seq<char>>, sep: Seq<char>)
    requires
        ws.len() > 0,
        forall|i: int| 0 <= i < ws.len() ==> (#[trigger] ws[i]).len() > 0,
    ensures
        join(ws, sep).len() > 0,
        join(ws, sep)[0] == ws[0][0],
        join(ws, sep).last() == ws.last().last(),
    decreases ws.len(),
{
    if ws.len() > 1 {
        lemma_join_ends(ws.drop_last(), sep);
        assert(ws.drop_last()[0] == ws[0]);
    }
}

/// Splitting text that does not hold `c` adds it to the piece in progress.
proof fn lemma_pieces_plain(a: Seq<char>, c: char, cur: Seq<char>, acc: Seq<Seq<char>>)
    requires
        !a.contains(c),
    ensures
        pieces_from(a, c, cur, acc) == acc.push(cur + a),
    decreases a.len(),
{
    if a.len() == 0 {
        assert(cur + a == cur);
    } else {
        assert(a[0] != c);
        assert(!a.drop_first().contains(c)) by {
            if a.drop_first().contains(c) {
                let k = choose|k: int| 0 <= k < a.drop_first().len() && a.drop_first()[k] == c;
                assert(a[k + 1] == c);
            }
        }
        lemma_pieces_plain(a.drop_first(), c, cur.push(a[0]), acc);
        assert(cur.push(a[0]) + a.drop_first() == cur + a);
    }
}

/// Splitting a concatenation goes on from where splitting the first part
/// left off.
proof fn lemma_pieces_concat(a: Seq<char>, b: Seq<char>, c: char, cur: Seq<char>, acc: Seq<Seq<char>>)
    ensures
        pieces_from(a + b, c, cur, acc) == pieces_from(
            b,
            c,
            pieces_from(a, c, cur, acc).last(),
            pieces_from(a, c, cur, acc).drop_last(),
        ),
    decreases a.len(),
{
    if a.len() == 0 {
        assert(a + b == b);
        assert(acc.push(cur).drop_last() == acc);
    } else {
        assert((a + b).drop_first() == a.drop_first() + b);
        assert((a + b)[0] == a[0]);
        if a[0] == c {
            lemma_pieces_concat(a.drop_first(), b, c, seq![], acc.push(cur));
        } else {
            lemma_pieces_concat(a.drop_first(), b, c, cur.push(a[0]), acc);
        }
    }
}

/// Words that do not hold `c`, joined by `c`, split back into themselves.
pub proof fn lemma_split_join(ws: Seq<Seq<char>>, c: char)
    requires
        ws.len() > 0,
        forall|i: int| 0 <= i < ws.len() ==> !(#[trigger] ws[i]).contains(c),
    ensures
        pieces(join(ws, seq![c]), c) == ws,
    decreases ws.len(),
{
    if ws.len() == 1 {
        lemma_pieces_plain(ws[0], c, seq![], seq![]);
        assert(seq![] + ws[0] == ws[0]);
        assert(seq![].push(ws[0]) =~= ws);
    } else {
        let init = ws.drop_last();
        lemma_split_join(init, c);
        let j = join(init, seq![c]);
        assert(join(ws, seq![c]) == j + (seq![c] + ws.last()));
        lemma_pieces_concat(j, seq![c] + ws.last(), c, seq![], seq![]);
        let ps = pieces_from(j, c, seq![], seq![]);
        assert(ps == init);
        assert((seq![c] + ws.last())[0] == c);
        assert((seq![c] + ws.last()).drop_first() == ws.last());
        lemma_pieces_plain(ws.last(), c, seq![], ps.drop_last().push(ps.last()));
        assert(ps.drop_last().push(ps.last()) == ps);
        assert(seq![] + ws.last() == ws.last());
        assert(init.push(ws.last()) =~= ws);
    }
}

/// The characters of `s` with surrounding whitespace removed.
pub fn trim_chars(s: &Vec<char>) -> (r: Vec<char>)
    ensures
        r@ == trim(s@),
{
    let mut i: usize = 0;
    while i < s.len() && is_whitespace(s[i])
        invariant
            i <= s.len(),
            forall|k: int| 0 <= k < i ==> unicode_whitespace(#[trigger] s@[k]),
        decreases s.len() - i,
    {
        i += 1;
    }
    proof {
        lemma_trim_start_at(s@, i as int);
    }
    let ghost t = s@.subrange(i as int, s@.len() as int);
    let mut j: usize = s.len();
    while j > i && is_whitespace(s[j - 1])
        invariant
            i <= j <= s.len(),
            forall|k: int| j <= k < s@.len() ==> unicode_whitespace(#[trigger] s@[k]),
        decreases j,
    {
        j -= 1;
    }
    proof {
        assert forall|k: int| j - i <= k < t.len() implies unicode_whitespace(#[trigger] t[k]) by {
            assert(t[k] == s@[k + i]);
        }
        if j > i {
            assert(t[j - i - 1] == s@[j - 1]);
        }
        lemma_trim_end_at(t, j - i);
        assert(t.subrange(0, j - i) == s@.subrange(i as int, j as int));
    }
    slice_chars(s, i, j)
}

/// The characters of `s` with trailing whitespace removed (`str::trim_end`).
pub fn trim_end_chars(s: &Vec<char>) -> (r: Vec<char>)
    ensures
        r@ == trim_end(s@),
{
    let mut j: usize = s.len();
    while j > 0 && is_whitespace(s[j - 1])
        invariant
            j <= s.len(),
            forall|k: int| j <= k < s@.len() ==> unicode_whitespace(#[trigger] s@[k]),
        decreases j,
    {
        j -= 1;
    }
    proof {
        lemma_trim_end_at(s@, j as int);
    }
    slice_chars(s, 0, j)
}

/// The whitespace-separated words of `s` (`str::split_whitespace`), scanning
/// left to right with the word in progress `cur` and the words found `acc`.
pub open spec fn words_from(s: Seq<char>, cur: Seq<char>, acc: Seq<Seq<char>>) -> Seq<Seq<char>>
    decreases s.len(),
{
    if s.len() == 0 {
        if cur.len() > 0 {
            acc.push(cur)
        } else {
            acc
        }
    } else if unicode_whitespace(s[0]) {
        words_from(s.drop_first(), seq![], if cur.len() > 0 { acc.push(cur) } else { acc })
    } else {
        words_from(s.drop_first(), cur.push(s[0]), acc)
    }
}

/// The whitespace-separated words of `s`.
pub open spec fn words(s: Seq<char>) -> Seq<Seq<char>> {
    words_from(s, seq![], seq![])
}

/// The words of `s`, each as a character vector.
pub fn split_whitespace(s: &Vec<char>) -> (r: Vec<Vec<char>>)
    ensures
        r@.map_values(|w: Vec<char>| w@) == words(s@),
{
    let mut acc: Vec<Vec<char>> = Vec::new();
    let mut cur: Vec<char> = Vec::new();
    let mut i: usize = 0;
    assert(s@.skip(0) == s@);
    assert(acc@.map_values(|w: Vec<char>| w@) == Seq::<Seq<char>>::empty());
    while i < s.len()
        invariant
            i <= s.len(),
            words(s@) == words_from(s@.skip(i as int), cur@, acc@.map_values(|w: Vec<char>| w@)),
        decreases s.len() - i,
    {
        let ghost rest = s@.skip(i as int);
        let ghost acc0 = acc@.map_values(|w: Vec<char>| w@);
        let ghost cur0 = cur@;
        assert(rest.drop_first() == s@.skip(i as int + 1));
        assert(rest[0] == s@[i as int]);
        assert(words_from(rest, cur0, acc0) == if unicode_whitespace(rest[0]) {
            words_from(rest.drop_first(), seq![], if cur0.len() > 0 { acc0.push(cur0) } else { acc0 })
        } else {
            words_from(rest.drop_first(), cur0.push(rest[0]), acc0)
        });
        if is_whitespace(s[i]) {
            if cur.len() > 0 {
                let ghost before = acc@;
                acc.push(cur);
                assert(acc@.map_values(|w: Vec<char>| w@) == before.map_values(|w: Vec<char>| w@).push(
                    cur@,
                ));
                cur = Vec::new();
                assert(cur@ == Seq::<char>::empty());
            } else {
                assert(cur@ =~= Seq::<char>::empty());
            }
        } else {
            cur.push(s[i]);
        }
        assert(words(s@) == words_from(s@.skip(i as int + 1), cur@, acc@.map_values(|w: Vec<char>| w@)));
        i += 1;
    }
    assert(s@.skip(i as int).len() == 0);
    if cur.len() > 0 {
        let ghost before = acc@;
        acc.push(cur);
        assert(acc@.map_values(|w: Vec<char>| w@) == before.map_values(|w: Vec<char>| w@).push(
            cur@,
        ));
    }
    acc
}

/// The words of `ws` joined with `sep` between them.
pub open spec fn join(ws: Seq<Seq<char>>, sep: Seq<char>) -> Seq<char>
    decreases ws.len(),
{
    if ws.len() == 0 {
        seq![]
    } else if ws.len() == 1 {
        ws[0]
    } else {
        join(ws.drop_last(), sep) + sep + ws.last()
    }
}

/// The first `n` words of `ws`, joined with `sep`.
pub fn join_first(ws: &Vec<Vec<char>>, n: usize, sep: &Vec<char>) -> (r: Vec<char>)
    ensures
        r@ == join(ws@.map_values(|w: Vec<char>| w@).take(
            if n <= ws.len() { n as int } else { ws.len() as int },
        ), sep@),
{
    let count: usize = if n <= ws.len() { n } else { ws.len() };
    let ghost all = ws@.map_values(|w: Vec<char>| w@);
    let mut out: Vec<char> = Vec::new();
    let mut i: usize = 0;
    while i < count
        invariant
            count <= ws.len(),
            i <= count,
            all == ws@.map_values(|w: Vec<char>| w@),
            out@ == join(all.take(i as int), sep@),
        decreases count - i,
    {
        assert(all.take(i as int + 1).drop_last() == all.take(i as int));
        assert(all.take(i as int + 1).last() == ws@[i as int]@);
        if i > 0 {
            push_all(&mut out, sep);
        }
        push_all(&mut out, &ws[i]);
        i += 1;
    }
    out
}

/// The first `n` whitespace-separated words of `s`, joined by single spaces.
pub open spec fn leading_words(s: Seq<char>, n: nat) -> Seq<char> {
    let ws = words(s);
    join(ws.take(if n <= ws.len() { n as int } else { ws.len() as int }), " "@)
}

/// The first `n` whitespace-separated words of `s`, joined by single spaces
/// (`split_whitespace().take(n)` joined with `" "`).
pub fn first_n_words(s: &str, n: usize) -> (r: String)
    ensures
        r@ == leading_words(s@, n as nat),
{
    let ws = split_whitespace(&chars_of(s));
    let sep = chars_of(" ");
    string_of(&join_first(&ws, n, &sep))
}

/// Whether the characters `v` spell out `lit`.
pub fn is_text(v: &Vec<char>, lit: &str) -> (r: bool)
    ensures
        r == (v@ == lit@),
{
    let l = chars_of(lit);
    chars_eq(v, &l)
}

/// The pieces of `s` between occurrences of `c` (`str::split` on a character),
/// scanning left to right with the piece in progress `cur`.
pub open spec fn pieces_from(s: Seq<char>, c: char, cur: Seq<char>, acc: Seq<Seq<char>>) -> Seq<Seq<char>>
    decreases s.len(),
{
    if s.len() == 0 {
        acc.push(cur)
    } else if s[0] == c {
        pieces_from(s.drop_first(), c, seq![], acc.push(cur))
    } else {
        pieces_from(s.drop_first(), c, cur.push(s[0]), acc)
    }
}

/// The pieces of `s` between occurrences of `c`; always at least one.
pub open spec fn pieces(s: Seq<char>, c: char) -> Seq<Seq<char>> {
    pieces_from(s, c, seq![], seq![])
}

/// Splitting always yields at least one piece.
pub proof fn lemma_pieces_nonempty(s: Seq<char>, c: char, cur: Seq<char>, acc: Seq<Seq<char>>)
    ensures
        pieces_from(s, c, cur, acc).len() >= acc.len() + 1,
    decreases s.len(),
{
    if s.len() > 0 {
        if s[0] == c {
            lemma_pieces_nonempty(s.drop_first(), c, seq![], acc.push(cur));
        } else {
            lemma_pieces_nonempty(s.drop_first(), c, cur.push(s[0]), acc);
        }
    }
}

/// The pieces of `s` between occurrences of `c`, each as a character vector.
pub fn split_on(s: &Vec<char>, c: char) -> (r: Vec<Vec<char>>)
    ensures
        r@.map_values(|w: Vec<char>| w@) == pieces(s@, c),
        r@.len() >= 1,
{
    let mut acc: Vec<Vec<char>> = Vec::new();
    let mut cur: Vec<char> = Vec::new();
    let mut i: usize = 0;
    assert(s@.skip(0) == s@);
    assert(acc@.map_values(|w: Vec<char>| w@) == Seq::<Seq<char>>::empty());
    while i < s.len()
        invariant
            i <= s.len(),
            pieces(s@, c) == pieces_from(s@.skip(i as int), c, cur@, acc@.map_values(|w: Vec<char>| w@)),
        decreases s.len() - i,
    {
        let ghost rest = s@.skip(i as int);
        let ghost acc0 = acc@.map_values(|w: Vec<char>| w@);
        let ghost cur0 = cur@;
        assert(rest.drop_first() == s@.skip(i as int + 1));
        assert(rest[0] == s@[i as int]);
        assert(pieces_from(rest, c, cur0, acc0) == if rest[0] == c {
            pieces_from(rest.drop_first(), c, seq![], acc0.push(cur0))
        } else {
            pieces_from(rest.drop_first(), c, cur0.push(rest[0]), acc0)
        });
        if s[i] == c {
            let ghost before = acc@;
            acc.push(cur);
            assert(acc@.map_values(|w: Vec<char>| w@) == before.map_values(|w: Vec<char>| w@).push(cur0));
            cur = Vec::new();
            assert(cur@ == Seq::<char>::empty());
        } else {
            cur.push(s[i]);
        }
        assert(pieces(s@, c) == pieces_from(s@.skip(i as int + 1), c, cur@, acc@.map_values(|w: Vec<char>| w@)));
        i += 1;
    }
    assert(s@.skip(i as int).len() == 0);
    let ghost before = acc@;
    let ghost last = cur@;
    acc.push(cur);
    assert(acc@.map_values(|w: Vec<char>| w@) == before.map_values(|w: Vec<char>| w@).push(last));
    acc
}

// ---------------------------------------------------------------------------
// std: the string <-> character boundary
// ---------------------------------------------------------------------------

/// The characters of a string slice (`str::chars`, collected).
pub(crate) fn chars_of(s: &str) -> (r: Vec<char>)
    ensures
        r@ == s@,
{
    broadcast use vstd::string::axiom_spec_iter;
    let mut out: Vec<char> = Vec::new();
    for c in it: s.chars()
        invariant
            out@ == it.seq().take(it.index() as int),
    {
        out.push(c);
    }
    out
}

/// A `String` holding exactly the given characters (`String: FromIterator<&char>`).
/// Claims the string's characters are those of the vector, in order.
#[verifier::external_body]
pub(crate) fn string_of(v: &Vec<char>) -> (r: String)
    ensures
        r@ == v@,
{
    v.iter().collect()
}

/// String slice equality: whether the two slices hold the same characters.
pub(crate) fn str_eq(a: &str, b: &str) -> (r: bool)
    ensures
        r == (a@ == b@),
{
    chars_eq(&chars_of(a), &chars_of(b))
}

// ---------------------------------------------------------------------------
// std: Unicode character properties
// ---------------------------------------------------------------------------

/// What `char::is_whitespace` answers for a character outside ASCII: the
/// Unicode `White_Space` property, held by U+0085, U+00A0, U+1680,
/// U+2000 to U+200A, U+2028, U+2029, U+202F, U+205F and U+3000.
pub open spec fn non_ascii_whitespace(c: char) -> bool {
    let u = c as u32;
    ||| u == 0x85
    ||| u == 0xA0
    ||| u == 0x1680
    ||| (0x2000 <= u && u <= 0x200A)
    ||| u == 0x2028
    ||| u == 0x2029
    ||| u == 0x202F
    ||| u == 0x205F
    ||| u == 0x3000
}

/// Whether `c` has the Unicode `White_Space` property (`char::is_whitespace`):
/// in ASCII, exactly the tab, line feed, vertical tab, form feed, carriage
/// return and space.
pub open spec fn unicode_whitespace(c: char) -> bool {
    if (c as u32) < 128 {
        c == ' ' || ('\t' <= c && c <= '\r')
    } else {
        non_ascii_whitespace(c)
    }
}

/// What `char::is_alphanumeric` answers for a character outside ASCII.
pub uninterp spec fn non_ascii_alphanumeric(c: char) -> bool;

/// What `char::is_alphabetic` answers for a character outside ASCII.
pub uninterp spec fn non_ascii_alphabetic(c: char) -> bool;

/// The characters `char::to_lowercase` yields for a character outside ASCII.
pub uninterp spec fn non_ascii_lower_char(c: char) -> Seq<char>;

/// Whether `c` is an ASCII letter.
pub open spec fn is_ascii_letter(c: char) -> bool {
    ('A' <= c && c <= 'Z') || ('a' <= c && c <= 'z')
}

/// Whether `c` is alphabetic or numeric (`char::is_alphanumeric`): in ASCII,
/// exactly the letters and the digits.
pub open spec fn unicode_alphanumeric(c: char) -> bool {
    if (c as u32) < 128 {
        is_ascii_letter(c) || is_digit(c)
    } else {
        non_ascii_alphanumeric(c)
    }
}

/// Whether `c` has the Unicode `Alphabetic` property (`char::is_alphabetic`):
/// in ASCII, exactly the letters.
pub open spec fn unicode_alphabetic(c: char) -> bool {
    if (c as u32) < 128 {
        is_ascii_letter(c)
    } else {
        non_ascii_alphabetic(c)
    }
}

/// The characters `char::to_lowercase` yields for `c`: in ASCII, the one
/// character that ASCII lowercasing gives.
pub open spec fn unicode_lower_char(c: char) -> Seq<char> {
    if (c as u32) < 128 {
        seq![ascii_lower(c)]
    } else {
        non_ascii_lower_char(c)
    }
}

/// The string `str::to_lowercase` returns for a string with a character
/// outside ASCII.
pub uninterp spec fn non_ascii_lower_str(s: Seq<char>) -> Seq<char>;

/// Whether every character of `s` is ASCII.
pub open spec fn all_ascii(s: Seq<char>) -> bool {
    forall|i: int| 0 <= i < s.len() ==> (#[trigger] s[i] as u32) < 128
}

/// The Unicode lowercase of `s` (`str::to_lowercase`): on an ASCII string,
/// the ASCII lowercase.
pub open spec fn unicode_lower_str(s: Seq<char>) -> Seq<char> {
    if all_ascii(s) {
        ascii_lower_seq(s)
    } else {
        non_ascii_lower_str(s)
    }
}

/// `char::is_whitespace`. Claims the result is the `White_Space` property
/// of `c`: in ASCII exactly `\t`, `\n`, `\x0B`, `\x0C`, `\r` and the space,
/// and outside it the code points `non_ascii_whitespace` lists.
#[verifier::external_body]
pub(crate) fn is_whitespace(c: char) -> (r: bool)
    ensures
        r == unicode_whitespace(c),
{
    c.is_whitespace()
}

/// `char::is_alphanumeric`. Claims the result is the alphabetic-or-numeric
/// property of `c`, which in ASCII holds of exactly the letters and digits.
#[verifier::external_body]
pub(crate) fn is_alphanumeric(c: char) -> (r: bool)
    ensures
        r == unicode_alphanumeric(c),
        (c as u32) >= 128 ==> r == non_ascii_alphanumeric(c),
{
    c.is_alphanumeric()
}

/// `char::is_alphabetic`. Claims the result is the `Alphabetic` property of
/// `c`, which in ASCII holds of exactly the letters.
#[verifier::external_body]
pub(crate) fn is_alphabetic(c: char) -> (r: bool)
    ensures
        r == unicode_alphabetic(c),
        (c as u32) >= 128 ==> r == non_ascii_alphabetic(c),
{
    c.is_alphabetic()
}

/// `char::to_lowercase`, collected. Claims the characters are the lowercase
/// mapping of `c`, which for an ASCII character is its ASCII lowercase alone.
#[verifier::external_body]
pub(crate) fn lower_char(c: char) -> (r: Vec<char>)
    ensures
        r@ == unicode_lower_char(c),
        (c as u32) >= 128 ==> r@ == non_ascii_lower_char(c),
{
    c.to_lowercase().collect()
}

/// `str::to_lowercase` over a character vector. Claims the characters are the
/// lowercase mapping of the whole string (which, unlike a per-character
/// mapping, treats a word-final capital sigma specially), and on an ASCII
/// string the ASCII lowercase.
#[verifier::external_body]
pub(crate) fn lower_str(s: &Vec<char>) -> (r: Vec<char>)
    ensures
        r@ == unicode_lower_str(s@),
        !all_ascii(s@) ==> r@ == non_ascii_lower_str(s@),
{
    let text: String = s.iter().collect();
    text.to_lowercase().chars().collect()
}

// ---------------------------------------------------------------------------
// std: `Debug` formatting of a string
// ---------------------------------------------------------------------------

/// What `format!("{:?}", s)` writes for the string `s`.
pub uninterp spec fn debug_str_text(s: Seq<char>) -> Seq<char>;

/// Whether every character of `s` is printable ASCII other than `"` and `\\`,
/// which `Debug` writes unescaped.
pub open spec fn plain_printable(s: Seq<char>) -> bool {
    forall|i: int| 0 <= i < s.len() ==> (' ' <= #[trigger] s[i] && s[i] <= '~' && s[i] != '"' && s[i]
        != '\\')
}

/// `format!("{:?}", s)`: the string quoted and escaped as Rust source.
/// Claims the result is the named rendering of `s`, and that a string of
/// plain printable ASCII is written as itself between double quotes.
#[verifier::external_body]
pub(crate) fn debug_quoted(s: &str) -> (r: String)
    ensures
        r@ == debug_str_text(s@),
        plain_printable(s@) ==> r@ == "\""@ + s@ + "\""@,
{
    format!("{s:?}")
}

} // verus!
