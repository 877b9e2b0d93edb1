//! Character-level helpers: filename sanitization, extension extraction and
//! identifier generation.

use vstd::prelude::*;

verus! {

/// Relies on std's `String::push`: appends the given `char` to the end of
/// the string.
#[verifier::external_body]
pub(crate) fn push_char(s: &mut String, c: char)
    ensures
        final(s)@ == old(s)@.push(c),
{
    s.push(c);
}

/// Relies on std's `char::from_u32`: returns the `char` with the given
/// value exactly when that value is a Unicode scalar value (not a
/// surrogate, at most 0x10FFFF), and `None` otherwise.
#[verifier::external_body]
pub(crate) fn char_from_u32(v: u32) -> (r: Option<char>)
    ensures
        (match r {
            Option::Some(c) => c as u32 == v,
            Option::None => true,
        }),
        r is Some <==> (v < 0xD800 || (0xE000 <= v && v <= 0x10FFFF)),
{
    char::from_u32(v)
}

/// The characters of a string, as an indexable vector.
pub fn str_to_chars(s: &str) -> (v: Vec<char>)
    ensures
        v@ == s@,
{
    let n = s.unicode_len();
    let mut v: Vec<char> = Vec::new();
    let mut i: usize = 0;
    while i < n
        invariant
            n == s@.len(),
            i <= n,
            v@ =~= s@.subrange(0, i as int),
        decreases n - i,
    {
        v.push(s.get_char(i));
        proof {
            assert(v@ =~= s@.subrange(0, i + 1));
        }
        i = i + 1;
    }
    proof {
        assert(v@ =~= s@);
    }
    v
}

/// Whether two strings hold the same characters.
pub fn str_eq(a: &str, b: &str) -> (r: bool)
    ensures
        r == (a@ == b@),
{
    let na = a.unicode_len();
    let nb = b.unicode_len();
    if na != nb {
        return false;
    }
    let mut i: usize = 0;
    while i < na
        invariant
            na == a@.len(),
            na == b@.len(),
            i <= na,
            forall|k: int| 0 <= k < i ==> a@[k] == b@[k],
        decreases na - i,
    {
        if a.get_char(i) != b.get_char(i) {
            return false;
        }
        i = i + 1;
    }
    proof {
        assert(a@ =~= b@);
    }
    true
}

/// A caller-supplied filename is safe when it holds no path separator and
/// no parent-directory segment.
pub open spec fn filename_safe(s: Seq<char>) -> bool {
    (forall|i: int| 0 <= i < s.len() ==> #[trigger] s[i] != '/' && s[i] != '\\') && (forall|
        i: int,
    |
        0 <= i && i + 1 < s.len() ==> !(#[trigger] s[i] == '.' && s[i + 1] == '.'))
}

/// Decides [`filename_safe`] for a caller-supplied filename.
pub fn check_filename(name: &str) -> (r: bool)
    ensures
        r == filename_safe(name@),
{
    let v = str_to_chars(name);
    let n = v.len();
    let mut i: usize = 0;
    let mut ok = true;
    while i < n
        invariant
            n == v@.len(),
            v@ == name@,
            i <= n,
            ok == ((forall|k: int| 0 <= k < i ==> #[trigger] v@[k] != '/' && v@[k] != '\\') && (
            forall|k: int|
                0 <= k && k + 1 < i + 1 && k + 1 < n ==> !(#[trigger] v@[k] == '.' && v@[k + 1]
                    == '.'))),
        decreases n - i,
    {
        let c = v[i];
        if c == '/' || c == '\\' {
            ok = false;
        }
        if i + 1 < n && c == '.' && v[i + 1] == '.' {
            ok = false;
        }
        i = i + 1;
    }
    ok
}

/// The decimal digit character for a value below ten.
pub open spec fn dec_digit(n: int) -> char
    recommends
        0 <= n < 10,
{
    ((n + 48) as u8) as char
}

/// The decimal digits of a natural number, most significant first.
pub open spec fn dec_chars(n: nat) -> Seq<char>
    decreases n,
{
    if n < 10 {
        seq![dec_digit(n as int)]
    } else {
        dec_chars(n / 10).push(dec_digit((n % 10) as int))
    }
}

/// The decimal form of an integer, with a leading minus sign when negative.
pub open spec fn int_chars(n: int) -> Seq<char> {
    if n < 0 {
        seq!['-'] + dec_chars((-n) as nat)
    } else {
        dec_chars(n as nat)
    }
}

/// The identifier generated for an image captured at the given Unix second.
pub open spec fn image_id_chars(secs: int) -> Seq<char> {
    "img_"@ + int_chars(secs)
}

/// Appends the decimal digits of `n`.
fn push_dec(out: &mut String, n: u64)
    ensures
        final(out)@ == old(out)@ + dec_chars(n as nat),
    decreases n,
{
    if n < 10 {
        push_char(out, ((n as u8) + 48) as char);
        proof {
            assert(final(out)@ =~= old(out)@ + dec_chars(n as nat));
        }
    } else {
        push_dec(out, n / 10);
        push_char(out, (((n % 10) as u8) + 48) as char);
        proof {
            assert(final(out)@ =~= old(out)@ + dec_chars(n as nat));
        }
    }
}

/// The store-generated identifier `img_<unix seconds>`.
pub fn image_id(secs: i64) -> (r: String)
    ensures
        r@ == image_id_chars(secs as int),
{
    let mut out = String::from_str("img_");
    if secs < 0 {
        push_char(&mut out, '-');
        let m: u64 = (-(secs as i128)) as u64;
        proof {
            assert(m as nat == (-(secs as int)) as nat);
        }
        push_dec(&mut out, m);
        proof {
            assert(out@ =~= image_id_chars(secs as int));
        }
    } else {
        push_dec(&mut out, secs as u64);
        proof {
            assert(out@ =~= image_id_chars(secs as int));
        }
    }
    out
}

/// Whether the string holds a dot.
pub open spec fn has_dot(s: Seq<char>) -> bool {
    exists|i: int| 0 <= i < s.len() && s[i] == '.'
}

/// The position of the last dot.
pub open spec fn last_dot(s: Seq<char>) -> int
    recommends
        has_dot(s),
    decreases s.len(),
{
    if s.len() == 0 {
        0
    } else if s[s.len() - 1] == '.' {
        s.len() - 1
    } else {
        last_dot(s.drop_last())
    }
}

/// `last_dot` returns the position of the rightmost dot.
proof fn lemma_last_dot(s: Seq<char>, j: int)
    requires
        0 <= j < s.len(),
        s[j] == '.',
        forall|k: int| j < k < s.len() ==> s[k] != '.',
    ensures
        last_dot(s) == j,
    decreases s.len(),
{
    if s[s.len() - 1] == '.' {
        assert(j == s.len() - 1);
    } else {
        assert(j < s.len() - 1);
        lemma_last_dot(s.drop_last(), j);
    }
}

/// The extension of a source filename: the substring after the last dot,
/// or `jpg` when the name holds no dot.
pub open spec fn ext_chars(s: Seq<char>) -> Seq<char> {
    if has_dot(s) {
        s.subrange(last_dot(s) + 1, s.len() as int)
    } else {
        "jpg"@
    }
}

/// Extracts [`ext_chars`] from a source filename.
pub fn extension_of(name: &str) -> (r: String)
    ensures
        r@ == ext_chars(name@),
{
    let v = str_to_chars(name);
    let n = v.len();
    let mut i: usize = n;
    while i > 0
        invariant
            n == v@.len(),
            v@ == name@,
            i <= n,
            forall|k: int| i <= k < n ==> v@[k] != '.',
        decreases i,
    {
        if v[i - 1] == '.' {
            proof {
                lemma_last_dot(name@, i - 1);
            }
            let sub = name.substring_char(i, n);
            return sub.to_owned();
        }
        i = i - 1;
    }
    let r = String::from_str("jpg");
    proof {
        assert(!has_dot(name@));
    }
    r
}

/// The on-disk filename generated for a captured image.
pub open spec fn captured_filename_chars(secs: int, original: Seq<char>) -> Seq<char> {
    image_id_chars(secs) + seq!['.'] + ext_chars(original)
}

/// Builds `<image id>.<extension>` for a captured image.
pub fn captured_filename(secs: i64, original_name: &str) -> (r: String)
    ensures
        r@ == captured_filename_chars(secs as int, original_name@),
{
    let mut s = image_id(secs);
    push_char(&mut s, '.');
    let ext = extension_of(original_name);
    s.append(ext.as_str());
    proof {
        assert(s@ =~= captured_filename_chars(secs as int, original_name@));
    }
    s
}

} // verus!
