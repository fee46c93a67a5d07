//! The part of JSON that the chat envelope uses: string literals with their escapes,
//! `null`, arrays of strings, and objects whose members hold one of those values.
use vstd::prelude::*;
use crate::text::{push_char, char_from_u32, chars_of};

verus! {

/// The suffix of `t` that starts at index `i`.
pub open spec fn rest(t: Seq<char>, i: int) -> Seq<char> {
    t.subrange(i, t.len() as int)
}

/// JSON insignificant whitespace.
pub open spec fn is_ws(c: char) -> bool {
    c == ' ' || c == '\t' || c == '\n' || c == '\r'
}

/// Lowercase hexadecimal digit for `n < 16`.
pub open spec fn hex_digit(n: int) -> char {
    if n < 10 {
        (48 + n) as char
    } else {
        (87 + n) as char
    }
}

/// The value of a hexadecimal digit (either case), or -1.
pub open spec fn hex_val(c: char) -> int {
    if '0' <= c && c <= '9' {
        c as int - 48
    } else if 'a' <= c && c <= 'f' {
        c as int - 87
    } else if 'A' <= c && c <= 'F' {
        c as int - 55
    } else {
        -1
    }
}

/// How one character is written inside a JSON string literal.
pub open spec fn escape_char(c: char) -> Seq<char> {
    if c == '"' {
        seq!['\\', '"']
    } else if c == '\\' {
        seq!['\\', '\\']
    } else if (c as u32) < 0x20 {
        seq!['\\', 'u', '0', '0', hex_digit(c as int / 16), hex_digit(c as int % 16)]
    } else {
        seq![c]
    }
}

/// The body of the JSON string literal for `s`.
pub open spec fn escape(s: Seq<char>) -> Seq<char>
    decreases s.len(),
{
    if s.len() == 0 {
        seq![]
    } else {
        escape(s.drop_last()) + escape_char(s.last())
    }
}

/// The JSON string literal for `s`.
pub open spec fn quote(s: Seq<char>) -> Seq<char> {
    seq!['"'] + escape(s) + seq!['"']
}

/// Prepends `c` to the parsed value of a successful parse.
pub open spec fn prepend(c: char, o: Option<(Seq<char>, Seq<char>)>) -> Option<(Seq<char>, Seq<char>)> {
    match o {
        Some((v, r)) => Some((seq![c] + v, r)),
        None => None,
    }
}

/// Prepends `a` to the parsed value of a successful parse.
pub open spec fn prepend_all(a: Seq<char>, o: Option<(Seq<char>, Seq<char>)>) -> Option<(Seq<char>, Seq<char>)> {
    match o {
        Some((v, r)) => Some((a + v, r)),
        None => None,
    }
}

/// The escape sequence at the start of `t` (what follows a backslash): the character it
/// stands for and how many characters of `t` it takes.
pub open spec fn unescape(t: Seq<char>) -> Option<(char, int)> {
    if t.len() == 0 {
        None
    } else if t[0] == '"' || t[0] == '\\' || t[0] == '/' {
        Some((t[0], 1))
    } else if t[0] == 'b' {
        Some(('\x08', 1))
    } else if t[0] == 'f' {
        Some(('\x0c', 1))
    } else if t[0] == 'n' {
        Some(('\n', 1))
    } else if t[0] == 'r' {
        Some(('\r', 1))
    } else if t[0] == 't' {
        Some(('\t', 1))
    } else if t[0] == 'u' && t.len() >= 5 && hex_val(t[1]) >= 0 && hex_val(t[2]) >= 0
        && hex_val(t[3]) >= 0 && hex_val(t[4]) >= 0 {
        let code = hex_val(t[1]) * 4096 + hex_val(t[2]) * 256 + hex_val(t[3]) * 16 + hex_val(t[4]);
        if code < 0xD800 || code >= 0xE000 {
            Some((code as char, 5))
        } else {
            None
        }
    } else {
        None
    }
}

/// Parses the body of a string literal, up to and including its closing quote: the
/// characters it stands for and what follows it.
pub open spec fn parse_str_body(s: Seq<char>) -> Option<(Seq<char>, Seq<char>)>
    decreases s.len(),
{
    if s.len() == 0 {
        None
    } else if s[0] == '"' {
        Some((seq![], s.drop_first()))
    } else if s[0] == '\\' {
        match unescape(s.drop_first()) {
            Some((c, n)) => if 0 < n && 1 + n <= s.len() {
                prepend(c, parse_str_body(s.subrange(1 + n, s.len() as int)))
            } else {
                None
            },
            None => None,
        }
    } else if (s[0] as u32) < 0x20 {
        None
    } else {
        prepend(s[0], parse_str_body(s.drop_first()))
    }
}

/// Parses a string literal at the start of `s`.
pub open spec fn parse_string(s: Seq<char>) -> Option<(Seq<char>, Seq<char>)> {
    if s.len() > 0 && s[0] == '"' {
        parse_str_body(s.drop_first())
    } else {
        None
    }
}

proof fn lemma_escape_concat(a: Seq<char>, b: Seq<char>)
    ensures
        escape(a + b) == escape(a) + escape(b),
    decreases b.len(),
{
    if b.len() == 0 {
        assert(a + b =~= a);
        assert(escape(a) + escape(b) =~= escape(a));
    } else {
        lemma_escape_concat(a, b.drop_last());
        assert((a + b).drop_last() =~= a + b.drop_last());
        assert((a + b).last() == b.last());
    }
}

proof fn lemma_hex_round_trip(n: int)
    requires
        0 <= n < 16,
    ensures
        hex_val(hex_digit(n)) == n,
{
}

/// What an escaped character is read back as.
proof fn lemma_parse_escaped_char(c: char, x: Seq<char>)
    ensures
        parse_str_body(escape_char(c) + x) == prepend(c, parse_str_body(x)),
{
    let s = escape_char(c) + x;
    if c == '"' || c == '\\' {
        assert(s.drop_first() =~= seq![c] + x);
        assert(s.subrange(2, s.len() as int) =~= x);
    } else if (c as u32) < 0x20 {
        lemma_hex_round_trip(c as int / 16);
        lemma_hex_round_trip(c as int % 16);
        let t = s.drop_first();
        assert(t =~= seq!['u', '0', '0', hex_digit(c as int / 16), hex_digit(c as int % 16)] + x);
        assert(t[1] == '0' && t[2] == '0');
        assert(s.subrange(6, s.len() as int) =~= x);
        let code = hex_val(t[1]) * 4096 + hex_val(t[2]) * 256 + hex_val(t[3]) * 16 + hex_val(t[4]);
        assert(code == c as int);
    } else {
        assert(s.drop_first() =~= x);
    }
}

/// A string literal's body is read back as the string it was written from.
pub proof fn lemma_parse_escape(s: Seq<char>, r: Seq<char>)
    ensures
        parse_str_body(escape(s) + seq!['"'] + r) == Some((s, r)),
    decreases s.len(),
{
    if s.len() == 0 {
        let t = escape(s) + seq!['"'] + r;
        assert(t =~= seq!['"'] + r);
        assert(t.drop_first() =~= r);
    } else {
        let c = s[0];
        let tail = s.drop_first();
        assert(s =~= seq![c] + tail);
        lemma_escape_concat(seq![c], tail);
        assert(seq![c].drop_last() =~= Seq::<char>::empty());
        assert(seq![c].last() == c);
        assert(escape(Seq::<char>::empty()) =~= Seq::<char>::empty());
        assert(escape(seq![c]) =~= escape_char(c));
        lemma_parse_escape(tail, r);
        let x = escape(tail) + seq!['"'] + r;
        assert(escape(s) + seq!['"'] + r =~= escape_char(c) + x);
        lemma_parse_escaped_char(c, x);
        assert(seq![c] + tail =~= s);
    }
}

/// A string literal is read back as the string it was written from.
pub proof fn lemma_parse_quote(s: Seq<char>, r: Seq<char>)
    ensures
        parse_string(quote(s) + r) == Some((s, r)),
{
    let t = quote(s) + r;
    assert(t.drop_first() =~= escape(s) + seq!['"'] + r);
    lemma_parse_escape(s, r);
}


/// The lowercase hexadecimal digit for `n`.
fn hex_digit_exec(n: u32) -> (r: char)
    requires
        n < 16,
    ensures
        r == hex_digit(n as int),
{
    if n < 10 {
        ((48 + n) as u8) as char
    } else {
        ((87 + n) as u8) as char
    }
}

/// The value of the hexadecimal digit `c`, if it is one.
fn hex_val_exec(c: char) -> (r: Option<u32>)
    ensures
        r is Some <==> hex_val(c) >= 0,
        r matches Some(v) ==> v as int == hex_val(c) && v < 16,
{
    if '0' <= c && c <= '9' {
        Some(c as u32 - 48)
    } else if 'a' <= c && c <= 'f' {
        Some(c as u32 - 87)
    } else if 'A' <= c && c <= 'F' {
        Some(c as u32 - 55)
    } else {
        None
    }
}

/// Appends `c` as it is written inside a string literal.
fn write_escaped_char(out: &mut String, c: char)
    ensures
        final(out)@ == old(out)@ + escape_char(c),
{
    let ghost before = out@;
    let code = c as u32;
    assert(code as int == c as int);
    if c == '"' {
        push_char(out, '\\');
        push_char(out, '"');
    } else if c == '\\' {
        push_char(out, '\\');
        push_char(out, '\\');
    } else if code < 0x20 {
        push_char(out, '\\');
        push_char(out, 'u');
        push_char(out, '0');
        push_char(out, '0');
        let hi = hex_digit_exec(code / 16);
        let lo = hex_digit_exec(code % 16);
        assert(hi == hex_digit(c as int / 16) && lo == hex_digit(c as int % 16));
        push_char(out, hi);
        push_char(out, lo);
    } else {
        push_char(out, c);
    }
    assert(out@ =~= before + escape_char(c));
}

/// Appends the JSON string literal for `s` to `out`.
pub fn write_quoted(out: &mut String, s: &str)
    ensures
        final(out)@ == old(out)@ + quote(s@),
{
    let cs = chars_of(s);
    push_char(out, '"');
    let ghost start = out@;
    let mut i: usize = 0;
    while i < cs.len()
        invariant
            i <= cs@.len(),
            cs@ == s@,
            out@ == start + escape(cs@.take(i as int)),
            start == old(out)@ + seq!['"'],
        decreases cs.len() - i,
    {
        let c = cs[i];
        let ghost before = out@;
        proof {
            assert(cs@.take(i + 1).drop_last() =~= cs@.take(i as int));
            assert(cs@.take(i + 1).last() == c);
            assert(escape(cs@.take(i + 1)) == escape(cs@.take(i as int)) + escape_char(c));
        }
        write_escaped_char(out, c);
        assert(out@ =~= before + escape_char(c));
        i = i + 1;
    }
    push_char(out, '"');
    proof {
        assert(cs@.take(i as int) =~= s@);
        assert(out@ =~= old(out)@ + quote(s@));
    }
}

/// Reads the escape sequence that starts at `i`, just after a backslash.
fn read_escape(t: &Vec<char>, i: usize) -> (r: Option<(char, usize)>)
    requires
        i <= t@.len(),
    ensures
        r matches Some((c, n)) ==> unescape(rest(t@, i as int)) == Some((c, n as int)),
        r is None ==> unescape(rest(t@, i as int)) is None,
{
    if i >= t.len() {
        return None;
    }
    let c = t[i];
    if c == '"' || c == '\\' || c == '/' {
        Some((c, 1))
    } else if c == 'b' {
        Some(('\x08', 1))
    } else if c == 'f' {
        Some(('\x0c', 1))
    } else if c == 'n' {
        Some(('\n', 1))
    } else if c == 'r' {
        Some(('\r', 1))
    } else if c == 't' {
        Some(('\t', 1))
    } else if c == 'u' && t.len() - i >= 5 {
        let h1 = hex_val_exec(t[i + 1]);
        let h2 = hex_val_exec(t[i + 2]);
        let h3 = hex_val_exec(t[i + 3]);
        let h4 = hex_val_exec(t[i + 4]);
        match (h1, h2, h3, h4) {
            (Some(a), Some(b), Some(d), Some(e)) => {
                let code: u32 = a * 4096 + b * 256 + d * 16 + e;
                if code < 0xD800 || code >= 0xE000 {
                    match char_from_u32(code) {
                        Some(ch) => {
                            proof {
                                assert(((ch as int) as char) == ch);
                                assert(((code as int) as char) as int == code as int);
                                assert((code as int) as char == ch);
                            }
                            Some((ch, 5))
                        },
                        None => None,
                    }
                } else {
                    None
                }
            },
            _ => None,
        }
    } else {
        None
    }
}

/// Reads the body of a string literal that starts at `i` (just after the opening quote).
pub fn read_str_body(t: &Vec<char>, i: usize) -> (r: Option<(String, usize)>)
    requires
        i <= t@.len(),
    ensures
        r matches Some((v, j)) ==> i < j <= t@.len() && parse_str_body(rest(t@, i as int)) == Some(
            (v@, rest(t@, j as int)),
        ),
        r is None ==> parse_str_body(rest(t@, i as int)) is None,
{
    let mut acc = String::new();
    let mut k: usize = i;
    while k < t.len()
        invariant
            i <= k <= t@.len(),
            parse_str_body(rest(t@, i as int)) == prepend_all(acc@, parse_str_body(rest(t@, k as int))),
        decreases t.len() - k,
    {
        let ghost u = rest(t@, k as int);
        let ghost acc0 = acc@;
        assert(u[0] == t@[k as int]);
        assert(u.drop_first() =~= rest(t@, k + 1));
        let c = t[k];
        if c == '"' {
            assert(acc0 + seq![] =~= acc0);
            return Some((acc, k + 1));
        } else if c == '\\' {
            match read_escape(t, k + 1) {
                Some((ch, n)) => {
                    assert(u.subrange(1 + n, u.len() as int) =~= rest(t@, k + 1 + n));
                    push_char(&mut acc, ch);
                    k = k + 1 + n;
                    proof {
                        let o = parse_str_body(rest(t@, k as int));
                        assert(acc0 + seq![ch] =~= acc@);
                        match o {
                            Some((v, r)) => {
                                assert(acc0 + (seq![ch] + v) =~= acc@ + v);
                            },
                            None => {},
                        }
                    }
                },
                None => {
                    return None;
                },
            }
        } else if (c as u32) < 0x20 {
            return None;
        } else {
            push_char(&mut acc, c);
            k = k + 1;
            proof {
                let o = parse_str_body(rest(t@, k as int));
                match o {
                    Some((v, r)) => {
                        assert(acc0 + (seq![c] + v) =~= acc@ + v);
                    },
                    None => {},
                }
            }
        }
    }
    assert(rest(t@, k as int).len() == 0);
    None
}

/// The items after the first of an array, each after a comma.
pub open spec fn encode_items(l: Seq<Seq<char>>) -> Seq<char>
    decreases l.len(),
{
    if l.len() == 0 {
        seq![]
    } else {
        encode_items(l.drop_last()) + seq![','] + quote(l.last())
    }
}

/// A JSON array of strings.
pub open spec fn encode_list(l: Seq<Seq<char>>) -> Seq<char> {
    if l.len() == 0 {
        seq!['[', ']']
    } else {
        seq!['['] + quote(l[0]) + encode_items(l.drop_first()) + seq![']']
    }
}

/// The literal `null`.
pub open spec fn null_text() -> Seq<char> {
    seq!['n', 'u', 'l', 'l']
}

/// An object member: the key's literal, a colon, and the value's text.
pub open spec fn member(k: Seq<char>, v: Seq<char>) -> Seq<char> {
    quote(k) + seq![':'] + v
}

/// A JSON value of the kinds that the envelope uses.
pub enum JsonValue {
    Null,
    Str(String),
    List(Vec<String>),
}

/// The mathematical form of a [`JsonValue`].
pub enum JsonModel {
    Null,
    Str(Seq<char>),
    List(Seq<Seq<char>>),
}

/// The characters of each string, in order.
pub open spec fn strs(v: Seq<String>) -> Seq<Seq<char>> {
    v.map_values(|x: String| x@)
}

impl View for JsonValue {
    type V = JsonModel;

    open spec fn view(&self) -> JsonModel {
        match self {
            JsonValue::Null => JsonModel::Null,
            JsonValue::Str(s) => JsonModel::Str(s@),
            JsonValue::List(l) => JsonModel::List(strs(l@)),
        }
    }
}

/// The members of an object, keys and values, in order.
pub open spec fn fields_view(v: Seq<(String, JsonValue)>) -> Seq<(Seq<char>, JsonModel)> {
    v.map_values(|p: (String, JsonValue)| (p.0@, p.1@))
}

/// Drops leading whitespace.
pub open spec fn skip_ws(s: Seq<char>) -> Seq<char>
    decreases s.len(),
{
    if s.len() > 0 && is_ws(s[0]) {
        skip_ws(s.drop_first())
    } else {
        s
    }
}

/// Puts `x` in front of the items of a successful parse.
pub open spec fn cons<A>(x: A, o: Option<(Seq<A>, Seq<char>)>) -> Option<(Seq<A>, Seq<char>)> {
    match o {
        Some((v, r)) => Some((seq![x] + v, r)),
        None => None,
    }
}

/// Puts `a` in front of the items of a successful parse.
pub open spec fn prefix<A>(a: Seq<A>, o: Option<(Seq<A>, Seq<char>)>) -> Option<(Seq<A>, Seq<char>)> {
    match o {
        Some((v, r)) => Some((a + v, r)),
        None => None,
    }
}

/// Parses what follows an array item: further items, each after a comma, then `]`.
pub open spec fn parse_items_more(s: Seq<char>) -> Option<(Seq<Seq<char>>, Seq<char>)>
    decreases s.len(),
{
    let u = skip_ws(s);
    if u.len() > 0 && u[0] == ']' {
        Some((seq![], u.drop_first()))
    } else if u.len() > 0 && u[0] == ',' {
        match parse_string(skip_ws(u.drop_first())) {
            Some((x, r)) => if r.len() < s.len() {
                cons(x, parse_items_more(r))
            } else {
                None
            },
            None => None,
        }
    } else {
        None
    }
}

/// Parses an array of strings at the start of `s`.
pub open spec fn parse_array(s: Seq<char>) -> Option<(Seq<Seq<char>>, Seq<char>)> {
    if s.len() > 0 && s[0] == '[' {
        let u = skip_ws(s.drop_first());
        if u.len() > 0 && u[0] == ']' {
            Some((seq![], u.drop_first()))
        } else {
            match parse_string(u) {
                Some((x, r)) => cons(x, parse_items_more(r)),
                None => None,
            }
        }
    } else {
        None
    }
}

/// Parses `null`, a string or an array of strings at the start of `s`.
pub open spec fn parse_value(s: Seq<char>) -> Option<(JsonModel, Seq<char>)> {
    if s.len() >= 4 && s[0] == 'n' && s[1] == 'u' && s[2] == 'l' && s[3] == 'l' {
        Some((JsonModel::Null, s.subrange(4, s.len() as int)))
    } else if s.len() > 0 && s[0] == '"' {
        match parse_string(s) {
            Some((x, r)) => Some((JsonModel::Str(x), r)),
            None => None,
        }
    } else {
        match parse_array(s) {
            Some((l, r)) => Some((JsonModel::List(l), r)),
            None => None,
        }
    }
}

/// Parses one object member, `"key": value`, at the start of `s`.
pub open spec fn parse_member(s: Seq<char>) -> Option<((Seq<char>, JsonModel), Seq<char>)> {
    match parse_string(s) {
        Some((k, r)) => {
            let u = skip_ws(r);
            if u.len() > 0 && u[0] == ':' {
                match parse_value(skip_ws(u.drop_first())) {
                    Some((v, r2)) => Some(((k, v), r2)),
                    None => None,
                }
            } else {
                None
            }
        },
        None => None,
    }
}

/// Parses what follows an object member: further members, each after a comma, then `}`.
pub open spec fn parse_members_more(s: Seq<char>) -> Option<(Seq<(Seq<char>, JsonModel)>, Seq<char>)>
    decreases s.len(),
{
    let u = skip_ws(s);
    if u.len() > 0 && u[0] == '}' {
        Some((seq![], u.drop_first()))
    } else if u.len() > 0 && u[0] == ',' {
        match parse_member(skip_ws(u.drop_first())) {
            Some((m, r)) => if r.len() < s.len() {
                cons(m, parse_members_more(r))
            } else {
                None
            },
            None => None,
        }
    } else {
        None
    }
}

/// Parses an object, after optional whitespace, at the start of `s`.
pub open spec fn parse_object(s: Seq<char>) -> Option<(Seq<(Seq<char>, JsonModel)>, Seq<char>)> {
    let u = skip_ws(s);
    if u.len() > 0 && u[0] == '{' {
        let w = skip_ws(u.drop_first());
        if w.len() > 0 && w[0] == '}' {
            Some((seq![], w.drop_first()))
        } else {
            match parse_member(w) {
                Some((m, r)) => cons(m, parse_members_more(r)),
                None => None,
            }
        }
    } else {
        None
    }
}

/// The members of the object that makes up the whole of `s`, whitespace aside.
pub open spec fn parse_document(s: Seq<char>) -> Option<Seq<(Seq<char>, JsonModel)>> {
    match parse_object(s) {
        Some((m, r)) => if skip_ws(r).len() == 0 {
            Some(m)
        } else {
            None
        },
        None => None,
    }
}

proof fn lemma_prefix_cons<A>(a: Seq<A>, x: A, o: Option<(Seq<A>, Seq<char>)>)
    ensures
        prefix(a, cons(x, o)) == prefix(a.push(x), o),
{
    match o {
        Some((v, r)) => {
            assert(a + (seq![x] + v) =~= a.push(x) + v);
        },
        None => {},
    }
}

proof fn lemma_prefix_end<A>(a: Seq<A>, r: Seq<char>)
    ensures
        prefix(a, Some((Seq::<A>::empty(), r))) == Some((a, r)),
{
    assert(a + Seq::<A>::empty() =~= a);
}

proof fn lemma_drop_first_rest(t: Seq<char>, i: int)
    requires
        0 <= i < t.len(),
    ensures
        rest(t, i).drop_first() == rest(t, i + 1),
        rest(t, i)[0] == t[i],
{
    assert(rest(t, i).drop_first() =~= rest(t, i + 1));
}

/// The index of the first character at or after `i` that is no whitespace.
fn skip_ws_at(t: &Vec<char>, i: usize) -> (j: usize)
    requires
        i <= t@.len(),
    ensures
        i <= j <= t@.len(),
        rest(t@, j as int) == skip_ws(rest(t@, i as int)),
{
    let mut k = i;
    while k < t.len() && (t[k] == ' ' || t[k] == '\t' || t[k] == '\n' || t[k] == '\r')
        invariant
            i <= k <= t@.len(),
            skip_ws(rest(t@, i as int)) == skip_ws(rest(t@, k as int)),
        decreases t.len() - k,
    {
        proof {
            lemma_drop_first_rest(t@, k as int);
        }
        k = k + 1;
    }
    if k < t.len() {
        assert(rest(t@, k as int)[0] == t@[k as int]);
    } else {
        assert(rest(t@, k as int).len() == 0);
    }
    k
}

/// Reads a string literal that starts at `i`.
fn read_string(t: &Vec<char>, i: usize) -> (r: Option<(String, usize)>)
    requires
        i <= t@.len(),
    ensures
        r matches Some((v, j)) ==> i < j <= t@.len() && parse_string(rest(t@, i as int)) == Some(
            (v@, rest(t@, j as int)),
        ),
        r is None ==> parse_string(rest(t@, i as int)) is None,
{
    if i < t.len() && t[i] == '"' {
        proof {
            lemma_drop_first_rest(t@, i as int);
        }
        read_str_body(t, i + 1)
    } else {
        None
    }
}

/// Reads an array of strings that starts at `i`.
fn read_array(t: &Vec<char>, i: usize) -> (r: Option<(Vec<String>, usize)>)
    requires
        i <= t@.len(),
    ensures
        r matches Some((v, j)) ==> i < j <= t@.len() && parse_array(rest(t@, i as int)) == Some(
            (strs(v@), rest(t@, j as int)),
        ),
        r is None ==> parse_array(rest(t@, i as int)) is None,
{
    if i >= t.len() || t[i] != '[' {
        return None;
    }
    let ghost s = rest(t@, i as int);
    proof {
        lemma_drop_first_rest(t@, i as int);
    }
    let k0 = skip_ws_at(t, i + 1);
    if k0 < t.len() && t[k0] == ']' {
        proof {
            lemma_drop_first_rest(t@, k0 as int);
        }
        let v: Vec<String> = Vec::new();
        assert(strs(v@) =~= Seq::<Seq<char>>::empty());
        return Some((v, k0 + 1));
    }
    if k0 < t.len() {
        assert(rest(t@, k0 as int)[0] == t@[k0 as int]);
    }
    let (x, mut k) = match read_string(t, k0) {
        Some(p) => p,
        None => {
            return None;
        },
    };
    let mut acc: Vec<String> = Vec::new();
    acc.push(x);
    proof {
        assert(strs(acc@) =~= seq![x@]);
        assert(seq![x@] =~= Seq::<Seq<char>>::empty().push(x@));
        lemma_prefix_cons(Seq::<Seq<char>>::empty(), x@, parse_items_more(rest(t@, k as int)));
        let o = parse_items_more(rest(t@, k as int));
        match o {
            Some((v, r)) => {
                assert(Seq::<Seq<char>>::empty() + (seq![x@] + v) =~= seq![x@] + v);
            },
            None => {},
        }
    }
    loop
        invariant
            i < k <= t@.len(),
            s == rest(t@, i as int),
            parse_array(s) == prefix(strs(acc@), parse_items_more(rest(t@, k as int))),
        decreases t.len() - k,
    {
        let ghost u0 = rest(t@, k as int);
        let p = skip_ws_at(t, k);
        if p < t.len() && t[p] == ']' {
            proof {
                lemma_drop_first_rest(t@, p as int);
                lemma_prefix_end(strs(acc@), rest(t@, p + 1));
                assert(skip_ws(u0) == rest(t@, p as int));
                assert(parse_items_more(u0) == Some((Seq::<Seq<char>>::empty(), rest(t@, p + 1))));
                assert(parse_array(s) == Some((strs(acc@), rest(t@, p + 1))));
            }
            return Some((acc, p + 1));
        } else if p < t.len() && t[p] == ',' {
            proof {
                lemma_drop_first_rest(t@, p as int);
            }
            let q = skip_ws_at(t, p + 1);
            match read_string(t, q) {
                Some((y, j)) => {
                    proof {
                        lemma_prefix_cons(strs(acc@), y@, parse_items_more(rest(t@, j as int)));
                    }
                    let ghost a0 = acc@;
                    acc.push(y);
                    assert(strs(acc@) =~= strs(a0).push(y@));
                    k = j;
                },
                None => {
                    assert(parse_items_more(u0) is None);
                    return None;
                },
            }
        } else {
            if p < t.len() {
                assert(rest(t@, p as int)[0] == t@[p as int]);
            }
            assert(parse_items_more(u0) is None);
            return None;
        }
    }
}

/// Reads `null`, a string or an array of strings that starts at `i`.
fn read_value(t: &Vec<char>, i: usize) -> (r: Option<(JsonValue, usize)>)
    requires
        i <= t@.len(),
    ensures
        r matches Some((v, j)) ==> i < j <= t@.len() && parse_value(rest(t@, i as int)) == Some(
            (v@, rest(t@, j as int)),
        ),
        r is None ==> parse_value(rest(t@, i as int)) is None,
{
    let ghost s = rest(t@, i as int);
    if t.len() - i >= 4 && t[i] == 'n' && t[i + 1] == 'u' && t[i + 2] == 'l' && t[i + 3] == 'l' {
        assert(s.subrange(4, s.len() as int) =~= rest(t@, i + 4));
        Some((JsonValue::Null, i + 4))
    } else if i < t.len() && t[i] == '"' {
        match read_string(t, i) {
            Some((x, j)) => Some((JsonValue::Str(x), j)),
            None => None,
        }
    } else {
        proof {
            if i < t.len() {
                lemma_drop_first_rest(t@, i as int);
            }
        }
        match read_array(t, i) {
            Some((l, j)) => Some((JsonValue::List(l), j)),
            None => None,
        }
    }
}

/// Reads an object member, `"key": value`, that starts at `i`.
fn read_member(t: &Vec<char>, i: usize) -> (r: Option<((String, JsonValue), usize)>)
    requires
        i <= t@.len(),
    ensures
        r matches Some((m, j)) ==> i < j <= t@.len() && parse_member(rest(t@, i as int)) == Some(
            ((m.0@, m.1@), rest(t@, j as int)),
        ),
        r is None ==> parse_member(rest(t@, i as int)) is None,
{
    let (k, j) = match read_string(t, i) {
        Some(p) => p,
        None => {
            return None;
        },
    };
    let p = skip_ws_at(t, j);
    if p < t.len() && t[p] == ':' {
        proof {
            lemma_drop_first_rest(t@, p as int);
        }
        let q = skip_ws_at(t, p + 1);
        match read_value(t, q) {
            Some((v, e)) => Some(((k, v), e)),
            None => None,
        }
    } else {
        if p < t.len() {
            assert(rest(t@, p as int)[0] == t@[p as int]);
        }
        None
    }
}

/// Reads what follows an object member, adding the members read to `acc`.
fn read_members_more(t: &Vec<char>, k0: usize, acc0: Vec<(String, JsonValue)>) -> (r: Option<(Vec<(String, JsonValue)>, usize)>)
    requires
        0 < k0 <= t@.len(),
    ensures
        r matches Some((v, j)) ==> 0 < j <= t@.len() && prefix(fields_view(acc0@), parse_members_more(rest(t@, k0 as int)))
            == Some((fields_view(v@), rest(t@, j as int))),
        r is None ==> prefix(fields_view(acc0@), parse_members_more(rest(t@, k0 as int))) is None,
{
    let mut acc = acc0;
    let mut k = k0;
    loop
        invariant
            0 < k <= t@.len(),
            prefix(fields_view(acc0@), parse_members_more(rest(t@, k0 as int))) == prefix(fields_view(acc@), parse_members_more(rest(t@, k as int))),
        decreases t.len() - k,
    {
        let ghost u0 = rest(t@, k as int);
        let p = skip_ws_at(t, k);
        if p < t.len() && t[p] == '}' {
            proof {
                lemma_drop_first_rest(t@, p as int);
                lemma_prefix_end(fields_view(acc@), rest(t@, p + 1));
                assert(parse_members_more(u0) == Some((Seq::<(Seq<char>, JsonModel)>::empty(), rest(t@, p + 1))));
            }
            return Some((acc, p + 1));
        } else if p < t.len() && t[p] == ',' {
            proof {
                lemma_drop_first_rest(t@, p as int);
            }
            let q = skip_ws_at(t, p + 1);
            match read_member(t, q) {
                Some((m, j)) => {
                    let ghost mv = (m.0@, m.1@);
                    proof {
                        lemma_prefix_cons(fields_view(acc@), mv, parse_members_more(rest(t@, j as int)));
                    }
                    let ghost a0 = acc@;
                    acc.push(m);
                    assert(fields_view(acc@) =~= fields_view(a0).push(mv));
                    k = j;
                },
                None => {
                    assert(parse_members_more(u0) is None);
                    return None;
                },
            }
        } else {
            if p < t.len() {
                assert(rest(t@, p as int)[0] == t@[p as int]);
            }
            assert(parse_members_more(u0) is None);
            return None;
        }
    }
}

/// Reads a text that is one JSON object, whitespace aside, whose member values are
/// `null`, strings or arrays of strings.
pub fn read_document(t: &Vec<char>) -> (r: Option<Vec<(String, JsonValue)>>)
    ensures
        r matches Some(v) ==> parse_document(t@) == Some(fields_view(v@)),
        r is None ==> parse_document(t@) is None,
{
    let ghost s = t@;
    assert(rest(t@, 0) =~= t@);
    let k0 = skip_ws_at(t, 0);
    if k0 >= t.len() || t[k0] != '{' {
        if k0 < t.len() {
            assert(rest(t@, k0 as int)[0] == t@[k0 as int]);
        }
        return None;
    }
    proof {
        lemma_drop_first_rest(t@, k0 as int);
    }
    let k1 = skip_ws_at(t, k0 + 1);
    let mut acc: Vec<(String, JsonValue)> = Vec::new();
    let mut k: usize;
    if k1 < t.len() && t[k1] == '}' {
        proof {
            lemma_drop_first_rest(t@, k1 as int);
        }
        k = k1 + 1;
        assert(parse_object(s) == Some((fields_view(acc@), rest(t@, k as int))));
    } else {
        if k1 < t.len() {
            assert(rest(t@, k1 as int)[0] == t@[k1 as int]);
        }
        let (m, j) = match read_member(t, k1) {
            Some(p) => p,
            None => {
                return None;
            },
        };
        acc.push(m);
        k = j;
        proof {
            let mv = (m.0@, m.1@);
            assert(fields_view(acc@) =~= Seq::<(Seq<char>, JsonModel)>::empty().push(mv));
            lemma_prefix_cons(Seq::<(Seq<char>, JsonModel)>::empty(), mv, parse_members_more(rest(t@, k as int)));
            let o = parse_members_more(rest(t@, k as int));
            match o {
                Some((v, r)) => {
                    assert(Seq::<(Seq<char>, JsonModel)>::empty() + (seq![mv] + v) =~= seq![mv] + v);
                },
                None => {},
            }
        }
        match read_members_more(t, k, acc) {
            Some((v, j)) => {
                acc = v;
                k = j;
            },
            None => {
                return None;
            },
        }
    }
    let e = skip_ws_at(t, k);
    if e < t.len() {
        assert(rest(t@, e as int).len() > 0);
        None
    } else {
        assert(rest(t@, e as int).len() == 0);
        Some(acc)
    }
}

/// Text that does not start with whitespace is left as it is.
proof fn lemma_skip_ws_plain(s: Seq<char>)
    requires
        s.len() > 0,
        !is_ws(s[0]),
    ensures
        skip_ws(s) == s,
{
}

proof fn lemma_items_concat(a: Seq<Seq<char>>, b: Seq<Seq<char>>)
    ensures
        encode_items(a + b) == encode_items(a) + encode_items(b),
    decreases b.len(),
{
    if b.len() == 0 {
        assert(a + b =~= a);
        assert(encode_items(a) + encode_items(b) =~= encode_items(a));
    } else {
        lemma_items_concat(a, b.drop_last());
        assert((a + b).drop_last() =~= a + b.drop_last());
        assert((a + b).last() == b.last());
        assert(encode_items(a + b) =~= encode_items(a) + encode_items(b));
    }
}

proof fn lemma_string_then(x: Seq<char>, r: Seq<char>)
    ensures
        skip_ws(quote(x) + r) == quote(x) + r,
        parse_string(quote(x) + r) == Some((x, r)),
        (quote(x) + r)[0] == '"',
{
    lemma_parse_quote(x, r);
    lemma_skip_ws_plain(quote(x) + r);
}

/// Array items written after a first one are read back.
proof fn lemma_parse_items(m: Seq<Seq<char>>, r: Seq<char>)
    ensures
        parse_items_more(encode_items(m) + seq![']'] + r) == Some((m, r)),
    decreases m.len(),
{
    let s = encode_items(m) + seq![']'] + r;
    if m.len() == 0 {
        assert(encode_items(m) =~= Seq::<char>::empty());
        assert(s =~= seq![']'] + r);
        lemma_skip_ws_plain(s);
        assert(s.drop_first() =~= r);
    } else {
        let x = m[0];
        let m2 = m.drop_first();
        assert(m =~= seq![x] + m2);
        lemma_items_concat(seq![x], m2);
        assert(seq![x].drop_last() =~= Seq::<Seq<char>>::empty());
        assert(encode_items(Seq::<Seq<char>>::empty()) =~= Seq::<char>::empty());
        assert(encode_items(seq![x]) =~= seq![','] + quote(x));
        let t = encode_items(m2) + seq![']'] + r;
        assert(s =~= seq![','] + (quote(x) + t));
        lemma_skip_ws_plain(s);
        assert(s.drop_first() =~= quote(x) + t);
        lemma_string_then(x, t);
        lemma_parse_items(m2, r);
        assert(seq![x] + m2 =~= m);
    }
}

proof fn lemma_parse_array(l: Seq<Seq<char>>, r: Seq<char>)
    ensures
        parse_array(encode_list(l) + r) == Some((l, r)),
        (encode_list(l) + r)[0] == '[',
{
    let s = encode_list(l) + r;
    if l.len() == 0 {
        assert(s =~= seq!['[', ']'] + r);
        assert(s.drop_first() =~= seq![']'] + r);
        lemma_skip_ws_plain(seq![']'] + r);
        assert((seq![']'] + r).drop_first() =~= r);
    } else {
        let t = encode_items(l.drop_first()) + seq![']'] + r;
        assert(s =~= seq!['['] + (quote(l[0]) + t));
        assert(s.drop_first() =~= quote(l[0]) + t);
        lemma_string_then(l[0], t);
        lemma_parse_items(l.drop_first(), r);
        assert(seq![l[0]] + l.drop_first() =~= l);
    }
}

/// An array of strings is read back.
pub proof fn lemma_parse_list(l: Seq<Seq<char>>, r: Seq<char>)
    ensures
        parse_value(encode_list(l) + r) == Some((JsonModel::List(l), r)),
{
    lemma_parse_array(l, r);
}

/// `null` is read back.
pub proof fn lemma_parse_null(r: Seq<char>)
    ensures
        parse_value(null_text() + r) == Some((JsonModel::Null, r)),
{
    let s = null_text() + r;
    assert(s.subrange(4, s.len() as int) =~= r);
}

/// A string value is read back.
pub proof fn lemma_parse_str_value(x: Seq<char>, r: Seq<char>)
    ensures
        parse_value(quote(x) + r) == Some((JsonModel::Str(x), r)),
{
    lemma_string_then(x, r);
}

/// An object member is read back, given that its value is.
proof fn lemma_parse_member(k: Seq<char>, v: Seq<char>, vm: JsonModel, r: Seq<char>)
    requires
        v.len() > 0,
        !is_ws(v[0]),
        parse_value(v + r) == Some((vm, r)),
    ensures
        parse_member(member(k, v) + r) == Some(((k, vm), r)),
{
    let s = member(k, v) + r;
    let t = seq![':'] + v + r;
    assert(s =~= quote(k) + t);
    lemma_string_then(k, t);
    lemma_skip_ws_plain(t);
    assert(t.drop_first() =~= v + r);
    lemma_skip_ws_plain(v + r);
}

/// A member after a comma is read back, given that its value is.
pub proof fn lemma_parse_next_member(k: Seq<char>, v: Seq<char>, vm: JsonModel, r: Seq<char>)
    requires
        v.len() > 0,
        !is_ws(v[0]),
        parse_value(v + r) == Some((vm, r)),
    ensures
        parse_members_more(seq![','] + member(k, v) + r) == cons((k, vm), parse_members_more(r)),
{
    let s = seq![','] + member(k, v) + r;
    lemma_skip_ws_plain(s);
    assert(s.drop_first() =~= member(k, v) + r);
    lemma_skip_ws_plain(member(k, v) + r);
    lemma_parse_member(k, v, vm, r);
}

/// The closing brace ends the members.
pub proof fn lemma_parse_members_end()
    ensures
        parse_members_more(seq!['}']) == Some((Seq::<(Seq<char>, JsonModel)>::empty(), Seq::<char>::empty())),
{
    lemma_skip_ws_plain(seq!['}']);
    assert(seq!['}'].drop_first() =~= Seq::<char>::empty());
}

/// An object whose first member is read back.
pub proof fn lemma_parse_first_member(k: Seq<char>, v: Seq<char>, vm: JsonModel, r: Seq<char>)
    requires
        v.len() > 0,
        !is_ws(v[0]),
        parse_value(v + r) == Some((vm, r)),
    ensures
        parse_object(seq!['{'] + member(k, v) + r) == cons((k, vm), parse_members_more(r)),
{
    let s = seq!['{'] + member(k, v) + r;
    lemma_skip_ws_plain(s);
    assert(s.drop_first() =~= member(k, v) + r);
    lemma_skip_ws_plain(member(k, v) + r);
    lemma_string_then(k, seq![':'] + v + r);
    assert(member(k, v) + r =~= quote(k) + (seq![':'] + v + r));
    lemma_parse_member(k, v, vm, r);
}

} // verus!
