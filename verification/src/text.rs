//! Solver text: the small vocabulary from which symbolic names and
//! constraints are put together.
//!
//! Every function here is pure. Each executable builder is paired with a
//! spec function over `Seq<char>` that says, character for character, what
//! it returns.
use vstd::prelude::*;
use vstd::string::*;

verus! {

/// `String::push` of the standard library: appends one character to the
/// end of the string and changes nothing else.
pub assume_specification[ String::push ](s: &mut String, c: char)
    ensures
        final(s)@ == old(s)@.push(c),
;

/// `(op a)`
pub open spec fn unary_text(op: Seq<char>, a: Seq<char>) -> Seq<char> {
    "("@ + op + " "@ + a + ")"@
}

/// `(op a b)`
pub open spec fn binary_text(op: Seq<char>, a: Seq<char>, b: Seq<char>) -> Seq<char> {
    "("@ + op + " "@ + a + " "@ + b + ")"@
}

/// `(op a b c)`
pub open spec fn ternary_text(op: Seq<char>, a: Seq<char>, b: Seq<char>, c: Seq<char>) -> Seq<
    char,
> {
    "("@ + op + " "@ + a + " "@ + b + " "@ + c + ")"@
}

/// `(= a b)`
pub open spec fn equal_text(a: Seq<char>, b: Seq<char>) -> Seq<char> {
    binary_text("="@, a, b)
}

/// `(=> guard c)`
pub open spec fn implies_text(guard: Seq<char>, c: Seq<char>) -> Seq<char> {
    binary_text("=>"@, guard, c)
}

/// `(not c)`
pub open spec fn negated_text(c: Seq<char>) -> Seq<char> {
    unary_text("not"@, c)
}

/// `(ite c a b)`
pub open spec fn ite_text(c: Seq<char>, a: Seq<char>, b: Seq<char>) -> Seq<char> {
    ternary_text("ite"@, c, a, b)
}

/// `scope_name`: a name put under a scope.
pub open spec fn scoped_text(scope: Seq<char>, name: Seq<char>) -> Seq<char> {
    scope + "_"@ + name
}

/// `name+`: a name with one more marker character behind it.
pub open spec fn marked_text(name: Seq<char>) -> Seq<char> {
    name.push('+')
}

/// `(op a)`
pub fn unary(op: &str, a: &str) -> (r: String)
    ensures
        r@ == unary_text(op@, a@),
{
    let mut s = String::from_str("(");
    s.append(op);
    s.append(" ");
    s.append(a);
    s.append(")");
    s
}

/// `(op a b)`
pub fn binary(op: &str, a: &str, b: &str) -> (r: String)
    ensures
        r@ == binary_text(op@, a@, b@),
{
    let mut s = String::from_str("(");
    s.append(op);
    s.append(" ");
    s.append(a);
    s.append(" ");
    s.append(b);
    s.append(")");
    s
}

/// `(op a b c)`
pub fn ternary(op: &str, a: &str, b: &str, c: &str) -> (r: String)
    ensures
        r@ == ternary_text(op@, a@, b@, c@),
{
    let mut s = String::from_str("(");
    s.append(op);
    s.append(" ");
    s.append(a);
    s.append(" ");
    s.append(b);
    s.append(" ");
    s.append(c);
    s.append(")");
    s
}

/// `(= a b)`
pub fn equal(a: &str, b: &str) -> (r: String)
    ensures
        r@ == equal_text(a@, b@),
{
    binary("=", a, b)
}

/// `(=> guard c)`
pub fn implication(guard: &str, c: &str) -> (r: String)
    ensures
        r@ == implies_text(guard@, c@),
{
    binary("=>", guard, c)
}

/// `(not c)`
pub fn negated(c: &str) -> (r: String)
    ensures
        r@ == negated_text(c@),
{
    unary("not", c)
}

/// `scope_name`
pub fn scoped(scope: &str, name: &str) -> (r: String)
    ensures
        r@ == scoped_text(scope@, name@),
{
    let mut s = String::from_str(scope);
    s.append("_");
    s.append(name);
    s
}

/// `name+`
pub fn marked(name: &str) -> (r: String)
    ensures
        r@ == marked_text(name@),
{
    let mut s = String::from_str(name);
    s.push('+');
    s
}

/// The text before `tail` with `tail` behind it.
pub fn joined(head: &str, tail: &str) -> (r: String)
    ensures
        r@ == head@ + tail@,
{
    let mut s = String::from_str(head);
    s.append(tail);
    s
}

/// The characters of a string, in order.
pub fn chars_of(s: &str) -> (v: Vec<char>)
    ensures
        v@ == s@,
{
    let mut v: Vec<char> = Vec::new();
    for c in it: s.chars()
        invariant
            it.seq() == s@,
            v@ == s@.take(it.index()),
    {
        v.push(c);
        assert(v@ =~= s@.take(it.index() + 1));
    }
    assert(v@ =~= s@);
    v
}

/// Whether `s` begins with `prefix`.
pub fn starts_with(s: &str, prefix: &str) -> (b: bool)
    ensures
        b == prefix@.is_prefix_of(s@),
{
    let sv = chars_of(s);
    let pv = chars_of(prefix);
    if pv.len() > sv.len() {
        return false;
    }
    let mut i: usize = 0;
    while i < pv.len()
        invariant
            0 <= i <= pv.len() <= sv.len(),
            sv@ == s@,
            pv@ == prefix@,
            forall|j: int| 0 <= j < i ==> sv@[j] == pv@[j],
        decreases pv.len() - i,
    {
        if sv[i] != pv[i] {
            assert(prefix@[i as int] != s@.subrange(0, prefix@.len() as int)[i as int]);
            return false;
        }
        i = i + 1;
    }
    assert(prefix@ =~= s@.subrange(0, prefix@.len() as int));
    true
}

/// The character of one digit, for radixes up to sixteen.
pub open spec fn digit_char(d: nat) -> char {
    "0123456789abcdef"@[d as int]
}

fn digit(d: u8) -> (c: char)
    requires
        d < 16,
    ensures
        c == digit_char(d as nat),
{
    proof {
        reveal_strlit("0123456789abcdef");
    }
    "0123456789abcdef".get_char(d as usize)
}

/// A natural number in decimal, without sign and without leading zeros.
pub open spec fn decimal_text(n: nat) -> Seq<char>
    decreases n,
{
    if n < 10 {
        seq![digit_char(n)]
    } else {
        decimal_text(n / 10).push(digit_char(n % 10))
    }
}

fn push_decimal(s: &mut String, n: u128)
    ensures
        final(s)@ == old(s)@ + decimal_text(n as nat),
    decreases n,
{
    if n >= 10 {
        push_decimal(s, n / 10);
    }
    let d: u8 = (n % 10) as u8;
    s.push(digit(d));
    assert(s@ =~= old(s)@ + decimal_text(n as nat));
}

/// A number in decimal.
pub fn decimal(n: u128) -> (r: String)
    ensures
        r@ == decimal_text(n as nat),
{
    let mut s = String::new();
    push_decimal(&mut s, n);
    assert(s@ =~= decimal_text(n as nat));
    s
}

/// A byte that is written as itself inside a byte-string literal: printable
/// ASCII other than the double quote and the backslash.
pub open spec fn is_plain_byte(b: u8) -> bool {
    32 <= b <= 126 && b != 34 && b != 92
}

/// One byte of a byte-string literal: itself where it is plain, else the
/// escape `\x` and its two hexadecimal digits.
pub open spec fn escaped_byte(b: u8) -> Seq<char> {
    if is_plain_byte(b) {
        seq![b as char]
    } else {
        "\\x"@.push(digit_char((b / 16) as nat)).push(digit_char((b % 16) as nat))
    }
}

/// The bytes of a byte-string literal, each escaped, in order.
pub open spec fn escaped_bytes(bytes: Seq<u8>) -> Seq<char>
    decreases bytes.len(),
{
    if bytes.len() == 0 {
        Seq::empty()
    } else {
        escaped_bytes(bytes.drop_last()) + escaped_byte(bytes.last())
    }
}

fn push_escaped_byte(s: &mut String, b: u8)
    ensures
        final(s)@ == old(s)@ + escaped_byte(b),
{
    if 32 <= b && b <= 126 && b != 34 && b != 92 {
        s.push(b as char);
        assert(s@ =~= old(s)@ + escaped_byte(b));
    } else {
        s.append("\\x");
        s.push(digit(b / 16));
        s.push(digit(b % 16));
        assert(s@ =~= old(s)@ + escaped_byte(b));
    }
}

/// `b"..."` with the bytes escaped.
pub open spec fn byte_string_text(bytes: Seq<u8>) -> Seq<char> {
    "b\""@ + escaped_bytes(bytes) + "\""@
}

/// A byte-string literal with its bytes escaped.
pub fn byte_string(bytes: &Vec<u8>) -> (r: String)
    ensures
        r@ == byte_string_text(bytes@),
{
    let mut s = String::from_str("b\"");
    let mut i: usize = 0;
    while i < bytes.len()
        invariant
            0 <= i <= bytes.len(),
            s@ == "b\""@ + escaped_bytes(bytes@.take(i as int)),
        decreases bytes.len() - i,
    {
        push_escaped_byte(&mut s, bytes[i]);
        proof {
            let next = bytes@.take(i + 1);
            assert(next.drop_last() =~= bytes@.take(i as int));
            assert(next.last() == bytes@[i as int]);
            assert(s@ =~= "b\""@ + escaped_bytes(next));
        }
        i = i + 1;
    }
    assert(bytes@.take(bytes.len() as int) =~= bytes@);
    s.append("\"");
    s
}

/// `'c'`
pub open spec fn char_text(c: char) -> Seq<char> {
    "'"@.push(c) + "'"@
}

/// `'c'`
pub fn quoted_char(c: char) -> (r: String)
    ensures
        r@ == char_text(c),
{
    let mut s = String::from_str("'");
    s.push(c);
    s.append("'");
    s
}

/// The characters that part a function path into its segments.
pub open spec fn is_separator(c: char) -> bool {
    c == ':' || c == '"' || c == '\\'
}

/// What a scan of a path has gathered: the finished segments and the
/// characters of the one that is being read.
pub struct Scan {
    pub done: Seq<Seq<char>>,
    pub open: Seq<char>,
}

/// The finished segments with the open one closed, if it holds anything.
pub open spec fn closed(scan: Scan) -> Seq<Seq<char>> {
    if scan.open.len() > 0 {
        scan.done.push(scan.open)
    } else {
        scan.done
    }
}

/// The scan of `path`, read from left to right: a separator closes the open
/// segment, any other character joins it.
pub open spec fn scanned(path: Seq<char>) -> Scan
    decreases path.len(),
{
    if path.len() == 0 {
        Scan { done: Seq::empty(), open: Seq::empty() }
    } else {
        let before = scanned(path.drop_last());
        if is_separator(path.last()) {
            Scan { done: closed(before), open: Seq::empty() }
        } else {
            Scan { done: before.done, open: before.open.push(path.last()) }
        }
    }
}

/// The segments of a function path: its maximal runs of characters that
/// are no separators, in order. None of them is empty.
pub open spec fn segments(path: Seq<char>) -> Seq<Seq<char>> {
    closed(scanned(path))
}

/// The views of a vector of strings.
pub open spec fn texts(v: Seq<String>) -> Seq<Seq<char>> {
    v.map_values(|s: String| s@)
}

/// Parts a function path into its segments.
pub fn split_path(path: &str) -> (r: Vec<String>)
    ensures
        texts(r@) == segments(path@),
{
    let cs = chars_of(path);
    let mut done: Vec<String> = Vec::new();
    let mut open = String::new();
    let mut n: usize = 0;
    let mut i: usize = 0;
    assert(texts(done@) =~= Seq::empty());
    while i < cs.len()
        invariant
            0 <= i <= cs.len(),
            cs@ == path@,
            n == open@.len(),
            n <= i,
            scanned(path@.take(i as int)).done == texts(done@),
            scanned(path@.take(i as int)).open == open@,
        decreases cs.len() - i,
    {
        let c = cs[i];
        proof {
            let next = path@.take(i + 1);
            assert(next.drop_last() =~= path@.take(i as int));
            assert(next.last() == c);
        }
        if c == ':' || c == '"' || c == '\\' {
            if n > 0 {
                let ghost before = done@;
                done.push(open);
                assert(texts(done@) =~= texts(before).push(open@));
                open = String::new();
                n = 0;
            }
        } else {
            open.push(c);
            n = n + 1;
        }
        i = i + 1;
    }
    assert(path@.take(cs.len() as int) =~= path@);
    if n > 0 {
        let ghost before = done@;
        done.push(open);
        assert(texts(done@) =~= texts(before).push(open@));
    }
    done
}

/// Whether two texts are the same.
pub fn same(a: &str, b: &str) -> (r: bool)
    ensures
        r == (a@ == b@),
{
    let av = chars_of(a);
    let bv = chars_of(b);
    if av.len() != bv.len() {
        return false;
    }
    let mut i: usize = 0;
    while i < av.len()
        invariant
            0 <= i <= av.len(),
            av.len() == bv.len(),
            av@ == a@,
            bv@ == b@,
            forall|j: int| 0 <= j < i ==> av@[j] == bv@[j],
        decreases av.len() - i,
    {
        if av[i] != bv[i] {
            return false;
        }
        i = i + 1;
    }
    assert(a@ =~= b@);
    true
}

} // verus!
