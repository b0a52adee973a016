//! Text: decimal numbers, percent-encoded bytes, and paths that are joined from
//! their parts.

use vstd::prelude::*;
use vstd::string::StrSliceExecFns;
use vstd::string::StringExecFns;

verus! {

/// The character of a decimal digit.
pub open spec fn digit_char(d: int) -> char {
    seq!['0', '1', '2', '3', '4', '5', '6', '7', '8', '9'][d]
}

/// The decimal digits of a number, without leading zeros.
pub open spec fn decimal(n: nat) -> Seq<char>
    decreases n,
{
    if n < 10 {
        seq![digit_char(n as int)]
    } else {
        decimal(n / 10).push(digit_char((n % 10) as int))
    }
}

/// Returns the text of a decimal digit.
fn digit_text(d: u64) -> (text: &'static str)
    requires
        d < 10,
    ensures
        text@ == seq![digit_char(d as int)],
{
    proof {
        reveal_strlit("0");
        reveal_strlit("1");
        reveal_strlit("2");
        reveal_strlit("3");
        reveal_strlit("4");
        reveal_strlit("5");
        reveal_strlit("6");
        reveal_strlit("7");
        reveal_strlit("8");
        reveal_strlit("9");
    }
    let text: &'static str = match d {
        0 => "0",
        1 => "1",
        2 => "2",
        3 => "3",
        4 => "4",
        5 => "5",
        6 => "6",
        7 => "7",
        8 => "8",
        _ => "9",
    };
    assert(text@ =~= seq![digit_char(d as int)]);
    text
}

/// Appends the decimal digits of the number to the text.
pub fn push_decimal(text: &mut String, n: u64)
    ensures
        final(text)@ == old(text)@ + decimal(n as nat),
    decreases n,
{
    if n >= 10 {
        push_decimal(text, n / 10);
    }
    text.append(digit_text(n % 10));
    assert(text@ =~= old(text)@ + decimal(n as nat));
}

/// The character of a hexadecimal digit, in upper case.
pub open spec fn upper_hex_digit(d: int) -> char {
    seq!['0', '1', '2', '3', '4', '5', '6', '7', '8', '9', 'A', 'B', 'C', 'D', 'E', 'F'][d]
}

/// The percent-encoding of the bytes: for each of them a percent sign and two
/// hexadecimal digits.
pub open spec fn percent_encoded(bytes: Seq<u8>) -> Seq<char>
    decreases bytes.len(),
{
    if bytes.len() == 0 {
        Seq::empty()
    } else {
        percent_encoded(bytes.drop_last()) + seq![
            '%',
            upper_hex_digit(bytes.last() as int / 16),
            upper_hex_digit(bytes.last() as int % 16),
        ]
    }
}

/// Returns the text of a hexadecimal digit, in upper case.
fn upper_hex_text(d: u8) -> (text: &'static str)
    requires
        d < 16,
    ensures
        text@ == seq![upper_hex_digit(d as int)],
{
    if d < 10 {
        return digit_text(d as u64);
    }
    proof {
        reveal_strlit("A");
        reveal_strlit("B");
        reveal_strlit("C");
        reveal_strlit("D");
        reveal_strlit("E");
        reveal_strlit("F");
    }
    let text: &'static str = match d {
        10 => "A",
        11 => "B",
        12 => "C",
        13 => "D",
        14 => "E",
        _ => "F",
    };
    assert(text@ =~= seq![upper_hex_digit(d as int)]);
    text
}

/// Appends the percent-encoding of the bytes to the text.
pub fn push_percent_encoded(text: &mut String, bytes: &[u8])
    ensures
        final(text)@ == old(text)@ + percent_encoded(bytes@),
{
    let ghost before = text@;
    let mut i: usize = 0;
    assert(text@ =~= before + percent_encoded(bytes@.take(0)));
    while i < bytes.len()
        invariant
            i <= bytes@.len(),
            text@ == before + percent_encoded(bytes@.take(i as int)),
        decreases bytes@.len() - i,
    {
        proof {
            reveal_strlit("%");
            assert(bytes@.take(i + 1).drop_last() =~= bytes@.take(i as int));
        }
        text.append("%");
        text.append(upper_hex_text(bytes[i] / 16));
        text.append(upper_hex_text(bytes[i] % 16));
        i = i + 1;
        assert(text@ =~= before + percent_encoded(bytes@.take(i as int)));
    }
    assert(bytes@.take(i as int) =~= bytes@);
}

/// Tells whether the text is empty.
pub fn is_empty(text: &str) -> (r: bool)
    ensures
        r == (text@.len() == 0),
{
    text.unicode_len() == 0
}

/// Tells whether the string is the text.
pub fn is_text(string: &String, text: &str) -> (r: bool)
    ensures
        r == (string@ == text@),
{
    let text: String = text.to_owned();
    string.eq(&text)
}

/// Whether the path is absolute.
pub open spec fn is_absolute_path(path: Seq<char>) -> bool {
    path.len() > 0 && path[0] == '/'
}

/// The path of something below a directory. An absolute path stands for itself,
/// any other is appended to the directory's, with a separator between them where
/// one is needed.
pub open spec fn joined(dir: Seq<char>, path: Seq<char>) -> Seq<char> {
    if is_absolute_path(path) {
        path
    } else if dir.len() == 0 || dir.last() == '/' {
        dir + path
    } else {
        dir.push('/') + path
    }
}

/// The path that the components make up.
pub open spec fn joined_all(components: Seq<Seq<char>>) -> Seq<char>
    decreases components.len(),
{
    if components.len() == 0 {
        Seq::empty()
    } else {
        joined(joined_all(components.drop_last()), components.last())
    }
}

/// The texts of the strings.
pub open spec fn texts(strings: Seq<String>) -> Seq<Seq<char>> {
    strings.map_values(|s: String| s@)
}

/// Tells whether the path is absolute.
pub fn is_absolute(path: &str) -> (r: bool)
    ensures
        r == is_absolute_path(path@),
{
    path.unicode_len() > 0 && path.get_char(0) == '/'
}

/// Returns the path below the directory.
pub fn join_path(dir: &str, path: &str) -> (r: String)
    ensures
        r@ == joined(dir@, path@),
{
    if is_absolute(path) {
        return path.to_owned();
    }
    let mut r: String = dir.to_owned();
    let len: usize = dir.unicode_len();
    if len > 0 && dir.get_char(len - 1) != '/' {
        proof {
            reveal_strlit("/");
            assert("/"@ =~= seq!['/']);
        }
        r.append("/");
        assert(r@ =~= dir@.push('/'));
    }
    r.append(path);
    r
}

/// Returns the path that the components make up.
pub fn join_components(components: &Vec<String>) -> (path: String)
    ensures
        path@ == joined_all(texts(components@)),
{
    let mut path: String = String::new();
    let ghost all = texts(components@);
    let mut i: usize = 0;
    while i < components.len()
        invariant
            i <= components@.len(),
            all == texts(components@),
            path@ == joined_all(all.take(i as int)),
        decreases components@.len() - i,
    {
        proof {
            assert(all.take(i + 1).drop_last() =~= all.take(i as int));
            assert(all.take(i + 1).last() == components@[i as int]@);
        }
        path = join_path(path.as_str(), components[i].as_str());
        i = i + 1;
    }
    assert(all.take(i as int) =~= all);
    path
}

/// A relative path that is joined to a directory lies below it: the result begins
/// with the directory's path and ends with the relative path.
pub proof fn law_join_keeps_both(dir: Seq<char>, path: Seq<char>)
    requires
        !is_absolute_path(path),
    ensures
        joined(dir, path).len() >= dir.len() + path.len(),
        joined(dir, path).take(dir.len() as int) == dir,
        joined(dir, path).skip(joined(dir, path).len() - path.len()) == path,
        dir.len() > 0 ==> is_absolute_path(joined(dir, path)) == is_absolute_path(dir),
{
    assert(joined(dir, path).take(dir.len() as int) =~= dir);
    assert(joined(dir, path).skip(joined(dir, path).len() - path.len()) =~= path);
}

/// The digits of a number are those of its tenth followed by the last one, and a number
/// below ten is a single digit.
pub proof fn law_decimal_digits(n: nat, d: int)
    requires
        0 <= d < 10,
    ensures
        decimal(d as nat).len() == 1,
        decimal(d as nat)[0] as u32 == '0' as u32 + d,
        n > 0 ==> decimal((10 * n + d) as nat) == decimal(n).push(decimal(d as nat)[0]),
{
    if n > 0 {
        assert((10 * n + d) / 10 == n);
        assert((10 * n + d) % 10 == d);
    }
}

/// Bytes are percent-encoded one after the other, each as a percent sign and its two
/// hexadecimal digits.
pub proof fn law_bytes_are_encoded_one_by_one(bytes: Seq<u8>, byte: u8)
    ensures
        percent_encoded(Seq::empty()).len() == 0,
        percent_encoded(bytes.push(byte)).len() == percent_encoded(bytes).len() + 3,
        ({
            let n = percent_encoded(bytes).len() as int;
            let text = percent_encoded(bytes.push(byte));
            &&& text.take(n) == percent_encoded(bytes)
            &&& text[n] == '%'
            &&& byte / 16 < 10 ==> text[n + 1] as u32 == '0' as u32 + byte / 16
            &&& byte / 16 >= 10 ==> text[n + 1] as u32 == 'A' as u32 + byte / 16 - 10
            &&& byte % 16 < 10 ==> text[n + 2] as u32 == '0' as u32 + byte % 16
            &&& byte % 16 >= 10 ==> text[n + 2] as u32 == 'A' as u32 + byte % 16 - 10
        }),
{
    assert(bytes.push(byte).drop_last() =~= bytes);
    let n = percent_encoded(bytes).len() as int;
    assert(percent_encoded(bytes.push(byte)).take(n) =~= percent_encoded(bytes));
}

/// A path below a directory is the directory's path, a separator if there is none yet,
/// and the path. An absolute path stands for itself, and below nothing a path stays as it
/// is.
pub proof fn law_paths_are_separated(dir: Seq<char>, path: Seq<char>)
    ensures
        is_absolute_path(path) <==> path.len() > 0 && path[0] == '/',
        path.len() > 0 && path[0] == '/' ==> joined(dir, path) == path,
        joined(Seq::empty(), path) == path,
        dir.len() > 0 && dir.last() == '/' && (path.len() == 0 || path[0] != '/') ==> joined(
            dir,
            path,
        ) == dir + path,
        dir.len() > 0 && dir.last() != '/' && (path.len() == 0 || path[0] != '/') ==> joined(
            dir,
            path,
        ) == dir + seq!['/'] + path,
{
    assert(Seq::<char>::empty() + path =~= path);
    assert(dir.push('/') =~= dir + seq!['/']);
}

/// The components of a path are joined one after the other.
pub proof fn law_components_are_joined_in_order(components: Seq<Seq<char>>, last: Seq<char>)
    ensures
        joined_all(Seq::empty()).len() == 0,
        joined_all(components.push(last)) == joined(joined_all(components), last),
{
    assert(components.push(last).drop_last() =~= components);
}

} // verus!
