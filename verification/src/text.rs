//! Character-level text handling shared by the wire formats: whitespace
//! trimming and tokenising, splitting on a separator, ASCII case-insensitive
//! comparison, joining, and decimal numbers.
use vstd::prelude::*;

verus! {

/// The Unicode `White_Space` property, the notion of whitespace that
/// `str::trim` and `str::split_whitespace` use.
pub open spec fn is_white_space(c: char) -> bool {
    let n = c as u32;
    ||| 0x9 <= n <= 0xD
    ||| n == 0x20
    ||| n == 0x85
    ||| n == 0xA0
    ||| n == 0x1680
    ||| 0x2000 <= n <= 0x200A
    ||| n == 0x2028
    ||| n == 0x2029
    ||| n == 0x202F
    ||| n == 0x205F
    ||| n == 0x3000
}

/// Whether `c` is Unicode whitespace.
pub fn is_whitespace(c: char) -> (r: bool)
    ensures
        r == is_white_space(c),
{
    let n = c as u32;
    (0x9 <= n && n <= 0xD) || n == 0x20 || n == 0x85 || n == 0xA0 || n == 0x1680 || (0x2000 <= n
        && n <= 0x200A) || n == 0x2028 || n == 0x2029 || n == 0x202F || n == 0x205F || n == 0x3000
}

/// The characters of a string slice, in order.
pub fn chars_of(s: &str) -> (v: Vec<char>)
    ensures
        v@ == s@,
{
    let mut v: Vec<char> = Vec::new();
    for c in it: s.chars()
        invariant
            it.seq() == s@,
            v@ == s@.take(it.index()),
    {
        v.push(c);
        assert(s@.take(it.index() + 1) =~= s@.take(it.index()).push(c));
    }
    assert(v@ =~= s@);
    v
}

/// Builds a `String` holding exactly the given characters
/// (`FromIterator<char>` for `String`).
#[verifier::external_body]
pub fn string_from_chars(v: &Vec<char>) -> (s: String)
    ensures
        s@ == v@,
{
    v.iter().collect()
}


/// The views of a sequence of strings.
pub open spec fn string_views(v: Seq<String>) -> Seq<Seq<char>> {
    v.map_values(|s: String| s@)
}

/// The views of a sequence of character vectors.
pub open spec fn char_vec_views(v: Seq<Vec<char>>) -> Seq<Seq<char>> {
    v.map_values(|c: Vec<char>| c@)
}

/// Turns each character vector into a `String`, keeping the order.
pub fn strings_from(parts: &Vec<Vec<char>>) -> (r: Vec<String>)
    ensures
        string_views(r@) == char_vec_views(parts@),
{
    let mut r: Vec<String> = Vec::new();
    for i in 0..parts.len()
        invariant
            r@.len() == i,
            forall|k: int| 0 <= k < i ==> #[trigger] r@[k]@ == parts@[k]@,
    {
        r.push(string_from_chars(&parts[i]));
    }
    assert(string_views(r@) =~= char_vec_views(parts@));
    r
}

/// `s` with leading whitespace removed.
pub open spec fn trim_start(s: Seq<char>) -> Seq<char>
    decreases s.len(),
{
    if s.len() > 0 && is_white_space(s[0]) {
        trim_start(s.drop_first())
    } else {
        s
    }
}

/// `s` with trailing whitespace removed.
pub open spec fn trim_end(s: Seq<char>) -> Seq<char>
    decreases s.len(),
{
    if s.len() > 0 && is_white_space(s.last()) {
        trim_end(s.drop_last())
    } else {
        s
    }
}

/// `s` with leading and trailing whitespace removed (`str::trim`).
pub open spec fn trim(s: Seq<char>) -> Seq<char> {
    trim_end(trim_start(s))
}

/// Removes leading and trailing whitespace.
pub fn trim_chars(v: &Vec<char>) -> (r: Vec<char>)
    ensures
        r@ == trim(v@),
{
    let n = v.len();
    let mut i: usize = 0;
    assert(v@.subrange(0, n as int) =~= v@);
    while i < n && is_whitespace(v[i])
        invariant
            n == v@.len(),
            i <= n,
            trim_start(v@) == trim_start(v@.subrange(i as int, n as int)),
        decreases n - i,
    {
        assert(v@.subrange(i + 1, n as int) =~= v@.subrange(i as int, n as int).drop_first());
        i = i + 1;
    }
    assert(trim_start(v@) == v@.subrange(i as int, n as int));
    let ghost t = v@.subrange(i as int, n as int);
    let mut j: usize = n;
    assert(v@.subrange(i as int, j as int) == t);
    while j > i && is_whitespace(v[j - 1])
        invariant
            n == v@.len(),
            i <= j <= n,
            t == v@.subrange(i as int, n as int),
            trim_end(t) == trim_end(v@.subrange(i as int, j as int)),
        decreases j - i,
    {
        assert(v@.subrange(i as int, j - 1) =~= v@.subrange(i as int, j as int).drop_last());
        j = j - 1;
    }
    assert(trim_end(t) == v@.subrange(i as int, j as int));
    let mut r: Vec<char> = Vec::new();
    let mut k: usize = i;
    while k < j
        invariant
            n == v@.len(),
            i <= k <= j <= n,
            r@ == v@.subrange(i as int, k as int),
        decreases j - k,
    {
        r.push(v[k]);
        assert(v@.subrange(i as int, k + 1) =~= v@.subrange(i as int, k as int).push(v@[k as int]));
        k = k + 1;
    }
    r
}

/// The pieces of `s` between occurrences of `sep`, in order (`str::split`
/// with a character pattern): always at least one piece, empty pieces kept.
pub open spec fn split_on(s: Seq<char>, sep: char) -> Seq<Seq<char>>
    decreases s.len(),
{
    if s.len() == 0 {
        seq![Seq::empty()]
    } else {
        let prev = split_on(s.drop_last(), sep);
        if s.last() == sep {
            prev.push(Seq::empty())
        } else {
            prev.update(prev.len() - 1, prev.last().push(s.last()))
        }
    }
}

/// `split_on` never yields an empty list of pieces.
pub proof fn lemma_split_on_nonempty(s: Seq<char>, sep: char)
    ensures
        split_on(s, sep).len() >= 1,
    decreases s.len(),
{
    if s.len() > 0 {
        lemma_split_on_nonempty(s.drop_last(), sep);
    }
}

/// Splits `v` at every occurrence of `sep`.
pub fn split_chars(v: &Vec<char>, sep: char) -> (r: Vec<String>)
    ensures
        string_views(r@) == split_on(v@, sep),
{
    let n = v.len();
    let mut parts: Vec<Vec<char>> = Vec::new();
    let mut cur: Vec<char> = Vec::new();
    for i in 0..n
        invariant
            n == v@.len(),
            char_vec_views(parts@).push(cur@) == split_on(v@.take(i as int), sep),
    {
        let c = v[i];
        let ghost before = char_vec_views(parts@).push(cur@);
        proof {
            assert(v@.take(i + 1).drop_last() =~= v@.take(i as int));
            lemma_split_on_nonempty(v@.take(i as int), sep);
        }
        if c == sep {
            parts.push(cur);
            cur = Vec::new();
            assert(char_vec_views(parts@).push(cur@) =~= before.push(Seq::empty()));
        } else {
            cur.push(c);
            assert(char_vec_views(parts@).push(cur@) =~= before.update(
                before.len() - 1,
                before.last().push(c),
            ));
        }
    }
    assert(v@.take(n as int) =~= v@);
    parts.push(cur);
    strings_from(&parts)
}

/// The maximal runs of non-whitespace characters of `s`, in order
/// (`str::split_whitespace`).
pub open spec fn ws_tokens(s: Seq<char>) -> Seq<Seq<char>>
    decreases s.len(),
{
    if s.len() == 0 {
        Seq::empty()
    } else {
        let prev = ws_tokens(s.drop_last());
        let c = s.last();
        if is_white_space(c) {
            prev
        } else if s.len() > 1 && !is_white_space(s[s.len() - 2]) && prev.len() > 0 {
            prev.update(prev.len() - 1, prev.last().push(c))
        } else {
            prev.push(seq![c])
        }
    }
}

/// Splits `v` into its whitespace-separated tokens.
pub fn tokens_of(v: &Vec<char>) -> (r: Vec<String>)
    ensures
        string_views(r@) == ws_tokens(v@),
{
    let n = v.len();
    let mut toks: Vec<Vec<char>> = Vec::new();
    let mut cur: Vec<char> = Vec::new();
    let mut in_tok = false;
    for i in 0..n
        invariant
            n == v@.len(),
            in_tok == (i > 0 && !is_white_space(v@[i - 1])),
            in_tok ==> cur@.len() > 0 && char_vec_views(toks@).push(cur@) == ws_tokens(
                v@.take(i as int),
            ),
            !in_tok ==> char_vec_views(toks@) == ws_tokens(v@.take(i as int)),
    {
        let c = v[i];
        let ghost before = ws_tokens(v@.take(i as int));
        proof {
            assert(v@.take(i + 1).drop_last() =~= v@.take(i as int));
        }
        if is_whitespace(c) {
            if in_tok {
                toks.push(cur);
                cur = Vec::new();
                assert(char_vec_views(toks@) =~= before);
            }
            in_tok = false;
        } else if in_tok {
            cur.push(c);
            assert(char_vec_views(toks@).push(cur@) =~= before.update(
                before.len() - 1,
                before.last().push(c),
            ));
        } else {
            cur = Vec::new();
            cur.push(c);
            in_tok = true;
            assert(char_vec_views(toks@).push(cur@) =~= before.push(seq![c]));
        }
    }
    assert(v@.take(n as int) =~= v@);
    if in_tok {
        toks.push(cur);
    }
    proof {
        assert(char_vec_views(toks@) =~= ws_tokens(v@));
    }
    strings_from(&toks)
}

/// The code of `c` after ASCII lower-casing (`char::to_ascii_lowercase`).
pub open spec fn folded(c: char) -> int {
    let n = c as int;
    if 65 <= n <= 90 {
        n + 32
    } else {
        n
    }
}

/// `a` and `b` are equal up to ASCII case (`str::eq_ignore_ascii_case`).
pub open spec fn eq_ignore_case(a: Seq<char>, b: Seq<char>) -> bool {
    &&& a.len() == b.len()
    &&& forall|i: int| 0 <= i < a.len() ==> #[trigger] folded(a[i]) == folded(b[i])
}

fn fold_code(c: char) -> (r: u32)
    ensures
        r == folded(c),
{
    let n = c as u32;
    if 65 <= n && n <= 90 {
        n + 32
    } else {
        n
    }
}

/// Compares two character sequences, ignoring ASCII case.
pub fn chars_eq_ignore_case(a: &Vec<char>, b: &Vec<char>) -> (r: bool)
    ensures
        r == eq_ignore_case(a@, b@),
{
    if a.len() != b.len() {
        return false;
    }
    for i in 0..a.len()
        invariant
            a@.len() == b@.len(),
            forall|k: int| 0 <= k < i ==> #[trigger] folded(a@[k]) == folded(b@[k]),
    {
        if fold_code(a[i]) != fold_code(b[i]) {
            return false;
        }
    }
    true
}

/// The pieces joined with `sep` between neighbours (`[String]::join`).
pub open spec fn join(parts: Seq<Seq<char>>, sep: Seq<char>) -> Seq<char>
    decreases parts.len(),
{
    if parts.len() == 0 {
        Seq::empty()
    } else if parts.len() == 1 {
        parts[0]
    } else {
        join(parts.drop_last(), sep) + sep + parts.last()
    }
}

/// Joins the strings with `sep` between neighbours.
pub fn join_strings(parts: &Vec<String>, sep: &str) -> (r: String)
    ensures
        r@ == join(string_views(parts@), sep@),
{
    let mut r = String::new();
    let ghost views = string_views(parts@);
    for i in 0..parts.len()
        invariant
            views == string_views(parts@),
            r@ == join(views.take(i as int), sep@),
    {
        assert(views.take(i + 1).drop_last() =~= views.take(i as int));
        if i > 0 {
            r.append(sep);
        }
        r.append(parts[i].as_str());
    }
    assert(views.take(parts@.len() as int) =~= views);
    r
}

/// The character of a decimal digit.
pub open spec fn digit_char(d: int) -> char {
    (d + 48) as char
}

/// Whether `c` is an ASCII decimal digit.
pub open spec fn is_digit(c: char) -> bool {
    48 <= c as u32 <= 57
}

/// The value of a decimal digit character.
pub open spec fn digit_value(c: char) -> int {
    c as u32 - 48
}

/// The decimal representation of `n`, without sign or leading zeros.
pub open spec fn decimal(n: nat) -> Seq<char>
    decreases n,
{
    if n < 10 {
        seq![digit_char(n as int)]
    } else {
        decimal(n / 10).push(digit_char((n % 10) as int))
    }
}

/// Appends the decimal representation of `n`.
pub fn push_decimal(out: &mut Vec<char>, n: u64)
    ensures
        final(out)@ == old(out)@ + decimal(n as nat),
    decreases n,
{
    if n >= 10 {
        push_decimal(out, n / 10);
    }
    let d = (n % 10) as u8;
    out.push((48u8 + d) as char);
    proof {
        assert(decimal(n as nat) == if n < 10 {
            seq![digit_char(n as int)]
        } else {
            decimal((n / 10) as nat).push(digit_char((n % 10) as int))
        });
    }
}

/// The value of a sequence of decimal digits, most significant first.
pub open spec fn digits_value(s: Seq<char>) -> nat
    decreases s.len(),
{
    if s.len() == 0 {
        0
    } else {
        (digits_value(s.drop_last()) * 10 + digit_value(s.last())) as nat
    }
}

/// The digits that follow an optional leading `+`.
pub open spec fn unsigned_digits(s: Seq<char>) -> Seq<char> {
    if s.len() > 0 && s[0] == '+' {
        s.drop_first()
    } else {
        s
    }
}

/// `s` read as an unsigned decimal number no larger than `max`, as
/// `u32::from_str` and `u64::from_str` read it: an optional `+`, then one or
/// more ASCII digits and nothing else; `None` when the text has another form
/// or the value is above `max`.
pub open spec fn parse_unsigned(s: Seq<char>, max: nat) -> Option<nat> {
    let d = unsigned_digits(s);
    if d.len() > 0 && (forall|i: int| 0 <= i < d.len() ==> is_digit(#[trigger] d[i]))
        && digits_value(d) <= max {
        Some(digits_value(d))
    } else {
        None
    }
}

/// A digit string is worth at least as much as any of its prefixes.
pub proof fn lemma_digits_value_prefix(s: Seq<char>, k: int)
    requires
        0 <= k <= s.len(),
        forall|i: int| 0 <= i < s.len() ==> is_digit(#[trigger] s[i]),
    ensures
        digits_value(s.take(k)) <= digits_value(s),
    decreases s.len(),
{
    if k < s.len() {
        lemma_digits_value_prefix(s.drop_last(), k);
        assert(s.drop_last().take(k) =~= s.take(k));
    } else {
        assert(s.take(k) =~= s);
    }
}

/// Reads `v` as an unsigned decimal number no larger than `max`.
pub fn parse_unsigned_chars(v: &Vec<char>, max: u64) -> (r: Option<u64>)
    ensures
        r matches Some(x) ==> parse_unsigned(v@, max as nat) == Some(x as nat),
        r is None ==> parse_unsigned(v@, max as nat) is None,
{
    let n = v.len();
    let start: usize = if n > 0 && v[0] == '+' {
        1
    } else {
        0
    };
    let ghost d = unsigned_digits(v@);
    assert(d =~= v@.subrange(start as int, n as int));
    if start >= n {
        return None;
    }
    let mut acc: u64 = 0;
    let mut i: usize = start;
    while i < n
        invariant
            n == v@.len(),
            start <= i <= n,
            d == v@.subrange(start as int, n as int),
            d == unsigned_digits(v@),
            forall|k: int| 0 <= k < i - start ==> is_digit(#[trigger] d[k]),
            acc == digits_value(d.take(i - start)),
            acc <= max,
        decreases n - i,
    {
        let c = v[i];
        let code = c as u32;
        if code < 48 || code > 57 {
            assert(!is_digit(d[i - start]));
            return None;
        }
        let dv = (code - 48) as u64;
        assert(d.take(i - start + 1).drop_last() =~= d.take(i - start));
        if dv > max || acc > (max - dv) / 10 {
            assert(acc * 10 + dv > max) by (nonlinear_arith)
                requires
                    dv > max || acc > (max - dv) / 10,
            ;
            proof {
                if forall|k: int| 0 <= k < d.len() ==> is_digit(#[trigger] d[k]) {
                    lemma_digits_value_prefix(d, i - start + 1);
                }
            }
            return None;
        }
        assert(acc * 10 + dv <= max) by (nonlinear_arith)
            requires
                acc <= (max - dv) / 10,
                dv <= max,
        ;
        acc = acc * 10 + dv;
        i = i + 1;
    }
    assert(d.take(n - start) =~= d);
    Some(acc)
}

/// Digit characters carry their value.
pub proof fn lemma_digit_char(d: int)
    requires
        0 <= d < 10,
    ensures
        is_digit(digit_char(d)),
        digit_value(digit_char(d)) == d,
{
}

/// A decimal representation is a non-empty run of digits whose value is the
/// number it represents.
pub proof fn lemma_decimal_digits(n: nat)
    ensures
        decimal(n).len() > 0,
        forall|i: int| 0 <= i < decimal(n).len() ==> is_digit(#[trigger] decimal(n)[i]),
        digits_value(decimal(n)) == n,
    decreases n,
{
    lemma_digit_char((n % 10) as int);
    let s = decimal(n);
    if n < 10 {
        assert(s.drop_last() =~= Seq::<char>::empty());
        assert(digits_value(s.drop_last()) == 0);
        assert(digits_value(s) == digits_value(s.drop_last()) * 10 + digit_value(s.last()));
    } else {
        lemma_decimal_digits(n / 10);
        assert(decimal(n).drop_last() =~= decimal(n / 10));
        assert(decimal(n).last() == digit_char((n % 10) as int));
        assert((n / 10) * 10 + n % 10 == n) by (nonlinear_arith);
        assert(digits_value(s) == digits_value(s.drop_last()) * 10 + digit_value(s.last()));
    }
}

/// Reading back the decimal representation of `n` gives `n`.
pub proof fn lemma_parse_decimal(n: nat, max: nat)
    requires
        n <= max,
    ensures
        parse_unsigned(decimal(n), max) == Some(n),
{
    lemma_decimal_digits(n);
    assert(unsigned_digits(decimal(n)) == decimal(n));
}

/// Splitting `x + y`, where `y` holds no separator, extends the last piece
/// of `x` by `y`.
pub proof fn lemma_split_on_append_plain(x: Seq<char>, y: Seq<char>, sep: char)
    requires
        !y.contains(sep),
    ensures
        split_on(x + y, sep) == split_on(x, sep).update(
            split_on(x, sep).len() - 1,
            split_on(x, sep).last() + y,
        ),
    decreases y.len(),
{
    lemma_split_on_nonempty(x, sep);
    if y.len() == 0 {
        assert(x + y =~= x);
        assert(split_on(x, sep).last() + y =~= split_on(x, sep).last());
        assert(split_on(x, sep).update(split_on(x, sep).len() - 1, split_on(x, sep).last())
            =~= split_on(x, sep));
    } else {
        let y1 = y.drop_last();
        assert(!y1.contains(sep)) by {
            if y1.contains(sep) {
                let k = choose|k: int| 0 <= k < y1.len() && y1[k] == sep;
                assert(y[k] == sep);
            }
        }
        assert(y[y.len() - 1] != sep);
        lemma_split_on_append_plain(x, y1, sep);
        assert((x + y).drop_last() =~= x + y1);
        lemma_split_on_nonempty(x + y1, sep);
        let p = split_on(x, sep);
        assert(split_on(x + y, sep) =~= p.update(p.len() - 1, p.last() + y)) by {
            assert(p.last() + y1 + seq![y.last()] =~= p.last() + y);
            assert((p.last() + y1).push(y.last()) =~= p.last() + y);
        }
    }
}

/// Splitting `x` followed by a separator and then `y`, where `y` holds no
/// separator, gives the pieces of `x` and then `y`.
pub proof fn lemma_split_on_append_piece(x: Seq<char>, y: Seq<char>, sep: char)
    requires
        !y.contains(sep),
    ensures
        split_on(x.push(sep) + y, sep) == split_on(x, sep).push(y),
{
    assert(x.push(sep).drop_last() =~= x);
    lemma_split_on_nonempty(x, sep);
    lemma_split_on_nonempty(x.push(sep), sep);
    lemma_split_on_append_plain(x.push(sep), y, sep);
    let p = split_on(x.push(sep), sep);
    assert(p.last() + y =~= y);
    assert(p.update(p.len() - 1, y) =~= split_on(x, sep).push(y));
}

/// A text without the separator is a single piece.
pub proof fn lemma_split_on_plain(y: Seq<char>, sep: char)
    requires
        !y.contains(sep),
    ensures
        split_on(y, sep) == seq![y],
{
    let e = Seq::<char>::empty();
    lemma_split_on_append_plain(e, y, sep);
    assert(e + y =~= y);
    assert(split_on(e, sep) == seq![e]);
    assert(seq![e].update(0, e + y) =~= seq![y]);
}

/// A decimal representation holds only digits, so no separator other than
/// a digit.
pub proof fn lemma_decimal_has_no(n: nat, c: char)
    requires
        !is_digit(c),
    ensures
        !decimal(n).contains(c),
{
    lemma_decimal_digits(n);
    if decimal(n).contains(c) {
        let k = choose|k: int| 0 <= k < decimal(n).len() && decimal(n)[k] == c;
        assert(is_digit(decimal(n)[k]));
    }
}

/// Whether two character sequences are equal.
pub fn chars_equal(a: &Vec<char>, b: &Vec<char>) -> (r: bool)
    ensures
        r == (a@ == b@),
{
    if a.len() != b.len() {
        return false;
    }
    for i in 0..a.len()
        invariant
            a@.len() == b@.len(),
            forall|k: int| 0 <= k < i ==> a@[k] == b@[k],
    {
        if a[i] != b[i] {
            return false;
        }
    }
    assert(a@ =~= b@);
    true
}

/// A copy of a list of strings.
pub fn clone_strings(v: &Vec<String>) -> (r: Vec<String>)
    ensures
        string_views(r@) == string_views(v@),
{
    let mut r: Vec<String> = Vec::new();
    for i in 0..v.len()
        invariant
            r@.len() == i,
            forall|k: int| 0 <= k < i ==> #[trigger] r@[k]@ == v@[k]@,
    {
        r.push(v[i].clone());
    }
    assert(string_views(r@) =~= string_views(v@));
    r
}

/// Whether `s` holds no whitespace.
pub open spec fn has_no_white_space(s: Seq<char>) -> bool {
    forall|i: int| 0 <= i < s.len() ==> !is_white_space(#[trigger] s[i])
}

/// A non-empty word without whitespace, written after nothing or after
/// whitespace, is one more token.
pub proof fn lemma_ws_tokens_append_word(x: Seq<char>, y: Seq<char>)
    requires
        y.len() > 0,
        has_no_white_space(y),
        x.len() == 0 || is_white_space(x.last()),
    ensures
        ws_tokens(x + y) == ws_tokens(x).push(y),
    decreases y.len(),
{
    let y1 = y.drop_last();
    let c = y.last();
    assert((x + y).drop_last() =~= x + y1);
    if y1.len() == 0 {
        assert(x + y1 =~= x);
        assert(y =~= seq![c]);
    } else {
        lemma_ws_tokens_append_word(x, y1);
        assert((x + y)[(x + y).len() - 2] == y1.last());
        let p = ws_tokens(x).push(y1);
        assert(y1.push(c) =~= y);
        assert(p.update(p.len() - 1, p.last().push(c)) =~= ws_tokens(x).push(y));
    }
}

/// Whitespace after the text adds no token.
pub proof fn lemma_ws_tokens_append_space(x: Seq<char>, c: char)
    requires
        is_white_space(c),
    ensures
        ws_tokens(x.push(c)) == ws_tokens(x),
{
    assert(x.push(c).drop_last() =~= x);
}

/// Trimming a text that starts and ends with non-whitespace leaves it as
/// it is.
pub proof fn lemma_trim_plain(s: Seq<char>)
    requires
        s.len() > 0,
        !is_white_space(s[0]),
        !is_white_space(s.last()),
    ensures
        trim(s) == s,
{
}

/// Whitespace at the end of such a text is trimmed off.
pub proof fn lemma_trim_line(s: Seq<char>, c: char)
    requires
        s.len() > 0,
        !is_white_space(s[0]),
        !is_white_space(s.last()),
        is_white_space(c),
    ensures
        trim(s.push(c)) == s,
{
    assert(s.push(c).drop_last() =~= s);
    assert(s.push(c)[0] == s[0]);
    assert(trim_start(s.push(c)) == s.push(c));
    assert(trim_end(s.push(c)) == trim_end(s));
    assert(trim_end(s) == s);
}

/// Joining pieces without whitespace with a separator that is not
/// whitespace gives a text without whitespace.
pub proof fn lemma_join_no_white_space(parts: Seq<Seq<char>>, sep: Seq<char>)
    requires
        has_no_white_space(sep),
        forall|i: int| 0 <= i < parts.len() ==> has_no_white_space(#[trigger] parts[i]),
    ensures
        has_no_white_space(join(parts, sep)),
    decreases parts.len(),
{
    if parts.len() > 1 {
        lemma_join_no_white_space(parts.drop_last(), sep);
        let j = join(parts.drop_last(), sep);
        let l = parts.last();
        assert(has_no_white_space(l));
        assert forall|i: int| 0 <= i < (j + sep + l).len() implies !is_white_space(
            #[trigger] (j + sep + l)[i],
        ) by {
            if i < j.len() {
                assert((j + sep + l)[i] == j[i]);
            } else if i < j.len() + sep.len() {
                assert((j + sep + l)[i] == sep[i - j.len()]);
            } else {
                assert((j + sep + l)[i] == l[i - j.len() - sep.len()]);
            }
        }
    }
}

/// Splitting the join of pieces that hold no separator gives the pieces
/// back.
pub proof fn lemma_split_join(parts: Seq<Seq<char>>, sep: char)
    requires
        parts.len() >= 1,
        forall|i: int| 0 <= i < parts.len() ==> !(#[trigger] parts[i]).contains(sep),
    ensures
        split_on(join(parts, seq![sep]), sep) == parts,
    decreases parts.len(),
{
    if parts.len() == 1 {
        lemma_split_on_plain(parts[0], sep);
        assert(seq![parts[0]] =~= parts);
    } else {
        let init = parts.drop_last();
        lemma_split_join(init, sep);
        assert(!parts.last().contains(sep));
        lemma_split_on_append_piece(join(init, seq![sep]), parts.last(), sep);
        assert(join(init, seq![sep]) + seq![sep] + parts.last() =~= join(init, seq![sep]).push(sep)
            + parts.last());
        assert(init.push(parts.last()) =~= parts);
    }
}

/// Trimming removes a run of whitespace from the front.
proof fn lemma_trim_start_cut(s: Seq<char>) -> (i: int)
    ensures
        0 <= i <= s.len(),
        trim_start(s) == s.subrange(i, s.len() as int),
        forall|k: int| 0 <= k < i ==> is_white_space(#[trigger] s[k]),
        i < s.len() ==> !is_white_space(s[i]),
    decreases s.len(),
{
    if s.len() > 0 && is_white_space(s[0]) {
        let j = lemma_trim_start_cut(s.drop_first());
        assert(s.drop_first().subrange(j, s.drop_first().len() as int) =~= s.subrange(
            j + 1,
            s.len() as int,
        ));
        assert forall|k: int| 0 <= k < j + 1 implies is_white_space(#[trigger] s[k]) by {
            if k > 0 {
                assert(s[k] == s.drop_first()[k - 1]);
            }
        }
        j + 1
    } else {
        assert(s.subrange(0, s.len() as int) =~= s);
        0
    }
}

/// Trimming removes a run of whitespace from the back.
proof fn lemma_trim_end_cut(s: Seq<char>) -> (j: int)
    ensures
        0 <= j <= s.len(),
        trim_end(s) == s.subrange(0, j),
        forall|k: int| j <= k < s.len() ==> is_white_space(#[trigger] s[k]),
        j > 0 ==> !is_white_space(s[j - 1]),
    decreases s.len(),
{
    if s.len() > 0 && is_white_space(s.last()) {
        let j = lemma_trim_end_cut(s.drop_last());
        assert(s.drop_last().subrange(0, j) =~= s.subrange(0, j));
        assert forall|k: int| j <= k < s.len() implies is_white_space(#[trigger] s[k]) by {
            if k < s.len() - 1 {
                assert(s[k] == s.drop_last()[k]);
            }
        }
        j
    } else {
        assert(s.subrange(0, s.len() as int) =~= s);
        s.len() as int
    }
}

/// Trimming keeps a contiguous piece of the text that neither starts nor
/// ends with whitespace, and removes only whitespace around it.
pub proof fn law_trim_cuts_whitespace(s: Seq<char>)
    ensures
        exists|i: int, j: int|
            {
                &&& 0 <= i <= j <= s.len()
                &&& #[trigger] trim(s) == s.subrange(i, j)
                &&& forall|k: int| 0 <= k < i ==> is_white_space(#[trigger] s[k])
                &&& forall|k: int| j <= k < s.len() ==> is_white_space(#[trigger] s[k])
                &&& i < j ==> !is_white_space(s[i]) && !is_white_space(s[j - 1])
            },
{
    let i = lemma_trim_start_cut(s);
    let t = s.subrange(i, s.len() as int);
    let j = lemma_trim_end_cut(t);
    assert(t.subrange(0, j) =~= s.subrange(i, i + j));
    assert forall|k: int| i + j <= k < s.len() implies is_white_space(#[trigger] s[k]) by {
        assert(s[k] == t[k - i]);
    }
    if j > 0 {
        assert(s[i] == t[0]);
        assert(s[i + j - 1] == t[j - 1]);
    }
    assert(trim(s) == s.subrange(i, i + j));
}

/// Splitting on a separator and joining the pieces back with it gives the
/// text again, and no piece holds the separator.
pub proof fn law_split_join_back(s: Seq<char>, sep: char)
    ensures
        join(split_on(s, sep), seq![sep]) == s,
        forall|k: int|
            0 <= k < split_on(s, sep).len() ==> !(#[trigger] split_on(s, sep)[k]).contains(sep),
    decreases s.len(),
{
    lemma_split_on_nonempty(s, sep);
    if s.len() == 0 {
        assert(split_on(s, sep) =~= seq![Seq::<char>::empty()]);
        assert(join(split_on(s, sep), seq![sep]) == split_on(s, sep)[0]);
        assert(s =~= Seq::<char>::empty());
    } else {
        let init = s.drop_last();
        let c = s.last();
        law_split_join_back(init, sep);
        lemma_split_on_nonempty(init, sep);
        let p = split_on(init, sep);
        let sep_s = seq![sep];
        if c == sep {
            let q = p.push(Seq::empty());
            assert(q.drop_last() =~= p);
            assert(join(q, sep_s) == join(p, sep_s) + sep_s + Seq::<char>::empty());
            assert(join(p, sep_s) + sep_s + Seq::<char>::empty() =~= s);
            assert forall|k: int| 0 <= k < q.len() implies !(#[trigger] q[k]).contains(sep) by {
                if k < p.len() {
                    assert(q[k] == p[k]);
                } else {
                    assert(q[k] =~= Seq::<char>::empty());
                }
            }
        } else {
            let q = p.update(p.len() - 1, p.last().push(c));
            lemma_join_update_last(p, sep_s, c);
            assert(join(p, sep_s).push(c) =~= s);
            assert forall|k: int| 0 <= k < q.len() implies !(#[trigger] q[k]).contains(sep) by {
                if k < p.len() - 1 {
                    assert(q[k] == p[k]);
                } else {
                    assert(!p[p.len() - 1].contains(sep));
                    if q[k].contains(sep) {
                        let m = choose|m: int| 0 <= m < q[k].len() && q[k][m] == sep;
                        if m < p.last().len() {
                            assert(p.last()[m] == sep);
                        }
                    }
                }
            }
        }
    }
}

/// Extending the last piece extends the join.
proof fn lemma_join_update_last(p: Seq<Seq<char>>, sep: Seq<char>, c: char)
    requires
        p.len() >= 1,
    ensures
        join(p.update(p.len() - 1, p.last().push(c)), sep) == join(p, sep).push(c),
{
    let q = p.update(p.len() - 1, p.last().push(c));
    if p.len() == 1 {
        assert(q[0] == p[0].push(c));
    } else {
        assert(q.drop_last() =~= p.drop_last());
        assert(join(p.drop_last(), sep) + sep + p.last().push(c) =~= (join(p.drop_last(), sep)
            + sep + p.last()).push(c));
    }
}

/// Two texts are equal up to ASCII case exactly when they have the same
/// length and at each position the characters are equal or are the upper-
/// and lower-case forms of one ASCII letter.
pub proof fn law_ignore_case_letters(a: Seq<char>, b: Seq<char>)
    ensures
        eq_ignore_case(a, b) <==> {
            &&& a.len() == b.len()
            &&& forall|i: int|
                0 <= i < a.len() ==> {
                    ||| #[trigger] a[i] == b[i]
                    ||| (65 <= b[i] as int <= 90 && a[i] as int == b[i] as int + 32)
                    ||| (65 <= a[i] as int <= 90 && b[i] as int == a[i] as int + 32)
                }
        },
{
    if a.len() == b.len() {
        if eq_ignore_case(a, b) {
            assert forall|i: int| 0 <= i < a.len() implies {
                ||| #[trigger] a[i] == b[i]
                ||| (65 <= b[i] as int <= 90 && a[i] as int == b[i] as int + 32)
                ||| (65 <= a[i] as int <= 90 && b[i] as int == a[i] as int + 32)
            } by {
                assert(folded(a[i]) == folded(b[i]));
            }
        }
        if forall|i: int|
            0 <= i < a.len() ==> {
                ||| #[trigger] a[i] == b[i]
                ||| (65 <= b[i] as int <= 90 && a[i] as int == b[i] as int + 32)
                ||| (65 <= a[i] as int <= 90 && b[i] as int == a[i] as int + 32)
            } {
            assert forall|i: int| 0 <= i < a.len() implies #[trigger] folded(a[i]) == folded(
                b[i],
            ) by {
                assert(a[i] == b[i] || (65 <= b[i] as int <= 90 && a[i] as int == b[i] as int + 32)
                    || (65 <= a[i] as int <= 90 && b[i] as int == a[i] as int + 32));
            }
        }
    }
}

/// The tokens of a text are non-empty and hold no whitespace, and together,
/// in order, they are the text's non-whitespace characters.
pub proof fn law_tokens_are_the_words(s: Seq<char>)
    ensures
        forall|k: int|
            0 <= k < ws_tokens(s).len() ==> (#[trigger] ws_tokens(s)[k]).len() > 0
                && has_no_white_space(ws_tokens(s)[k]),
        ws_tokens(s).flatten() == s.filter(|c: char| !is_white_space(c)),
{
    lemma_tokens_words(s);
    ws_tokens(s).lemma_flatten_and_flatten_alt_are_equivalent();
}

proof fn lemma_tokens_words(s: Seq<char>)
    ensures
        forall|k: int|
            0 <= k < ws_tokens(s).len() ==> (#[trigger] ws_tokens(s)[k]).len() > 0
                && has_no_white_space(ws_tokens(s)[k]),
        ws_tokens(s).flatten_alt() == s.filter(|c: char| !is_white_space(c)),
    decreases s.len(),
{
    let p = |c: char| !is_white_space(c);
    reveal(Seq::filter);
    if s.len() > 0 {
        let init = s.drop_last();
        let c = s.last();
        lemma_tokens_words(init);
        assert(init.push(c) =~= s);
        init.lemma_filter_push(c, p);
        let prev = ws_tokens(init);
        let t = ws_tokens(s);
        if is_white_space(c) {
        } else if s.len() > 1 && !is_white_space(s[s.len() - 2]) && prev.len() > 0 {
            let last = prev.last().push(c);
            assert(t == prev.update(prev.len() - 1, last));
            assert(t.drop_last() =~= prev.drop_last());
            assert(t.last() == last);
            assert(prev.flatten_alt() == prev.drop_last().flatten_alt() + prev.last());
            assert(t.flatten_alt() =~= prev.flatten_alt().push(c));
            assert forall|k: int| 0 <= k < t.len() implies (#[trigger] t[k]).len() > 0
                && has_no_white_space(t[k]) by {
                if k < prev.len() - 1 {
                    assert(t[k] == prev[k]);
                } else {
                    assert(has_no_white_space(prev[k]));
                    assert forall|m: int| 0 <= m < t[k].len() implies !is_white_space(
                        #[trigger] t[k][m],
                    ) by {
                        if m < prev[k].len() {
                            assert(t[k][m] == prev[k][m]);
                        }
                    }
                }
            }
        } else {
            assert(t == prev.push(seq![c]));
            assert(t.drop_last() =~= prev);
            assert(t.flatten_alt() =~= prev.flatten_alt() + seq![c]);
            assert(prev.flatten_alt() + seq![c] =~= prev.flatten_alt().push(c));
            assert forall|k: int| 0 <= k < t.len() implies (#[trigger] t[k]).len() > 0
                && has_no_white_space(t[k]) by {
                if k < prev.len() {
                    assert(t[k] == prev[k]);
                }
            }
        }
    }
}

/// A number is read only from text made of ASCII digits after an optional
/// leading `+`, its value is at most the bound, and the decimal text of any
/// number within the bound reads back as that number. The decimal text has
/// no leading zero unless it is `0`.
pub proof fn law_decimal_reading(s: Seq<char>, max: nat, n: nat)
    ensures
        parse_unsigned(s, max) matches Some(v) ==> {
            &&& v <= max
            &&& s.len() > 0
            &&& forall|i: int|
                0 <= i < s.len() ==> (48 <= (#[trigger] s[i]) as u32 <= 57 || (i == 0 && s[i]
                    == '+'))
        },
        n <= max ==> parse_unsigned(decimal(n), max) == Some(n),
        decimal(n).len() > 1 ==> decimal(n)[0] != '0',
    decreases n,
{
    if n <= max {
        lemma_parse_decimal(n, max);
    }
    if parse_unsigned(s, max) is Some {
        let d = unsigned_digits(s);
        assert forall|i: int| 0 <= i < s.len() implies (48 <= (#[trigger] s[i]) as u32 <= 57 || (
        i == 0 && s[i] == '+')) by {
            if s.len() > 0 && s[0] == '+' {
                if i > 0 {
                    assert(s[i] == d[i - 1]);
                }
            } else {
                assert(s[i] == d[i]);
            }
        }
    }
    if n >= 10 {
        law_decimal_reading(s, max, n / 10);
        lemma_decimal_digits(n / 10);
        assert(decimal(n)[0] == decimal(n / 10)[0]);
        if decimal(n / 10).len() == 1 {
            assert(n / 10 < 10) by {
                if n / 10 >= 10 {
                    assert(decimal(n / 10).len() == decimal(n / 10 / 10).len() + 1);
                    lemma_decimal_digits(n / 10 / 10);
                }
            }
            assert(n / 10 >= 1);
            lemma_digit_char((n / 10) as int);
            assert(decimal(n / 10)[0] == digit_char((n / 10) as int));
        }
    }
}

} // verus!
