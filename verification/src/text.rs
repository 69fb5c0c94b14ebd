//! Text measured in UTF-8 bytes: the size cap of a room's text and the
//! clamping of longer input to its longest fitting prefix.
use vstd::prelude::*;
use vstd::string::*;
use vstd::utf8::*;

verus! {

/// Upper bound, in bytes, on the text a room stores.
pub const TEXT_MAX_LEN: usize = 8000;

/// Number of bytes that the UTF-8 encoding of `c` takes.
pub open spec fn char_width(c: char) -> nat {
    encode_scalar(c as u32).len()
}

/// Number of bytes that the UTF-8 encoding of `s` takes.
pub open spec fn byte_len(s: Seq<char>) -> nat {
    encode_utf8(s).len()
}

/// How many leading characters of `s` fit together into `budget` bytes.
pub open spec fn fitting(s: Seq<char>, budget: int) -> nat
    decreases s.len(),
{
    if s.len() == 0 || char_width(s[0]) > budget {
        0
    } else {
        1 + fitting(s.drop_first(), budget - char_width(s[0]))
    }
}

/// The longest prefix of `s` whose encoding takes at most `TEXT_MAX_LEN` bytes.
pub open spec fn clamped(s: Seq<char>) -> Seq<char> {
    s.take(fitting(s, TEXT_MAX_LEN as int) as int)
}

/// Every character takes between one and four bytes.
pub proof fn lemma_char_width(c: char)
    ensures
        1 <= char_width(c) <= 4,
{
}

/// Encoding distributes over concatenation.
pub proof fn lemma_encode_concat(a: Seq<char>, b: Seq<char>)
    ensures
        encode_utf8(a + b) == encode_utf8(a) + encode_utf8(b),
    decreases a.len(),
{
    if a.len() == 0 {
        assert(a + b =~= b);
        assert(encode_utf8(a) + encode_utf8(b) =~= encode_utf8(b));
    } else {
        lemma_encode_concat(a.drop_first(), b);
        assert((a + b).drop_first() =~= a.drop_first() + b);
        assert(encode_utf8(a + b) =~= encode_utf8(a) + encode_utf8(b));
    }
}

/// The byte length of a prefix grows by the width of the character added.
pub proof fn lemma_byte_len_step(s: Seq<char>, k: int)
    requires
        0 <= k < s.len(),
    ensures
        byte_len(s.take(k + 1)) == byte_len(s.take(k)) + char_width(s[k]),
{
    let one = seq![s[k]];
    assert(s.take(k + 1) =~= s.take(k) + one);
    lemma_encode_concat(s.take(k), one);
    assert(one.drop_first() =~= Seq::<char>::empty());
    assert(encode_utf8(one) =~= encode_scalar(s[k] as u32)) by {
        reveal_with_fuel(encode_utf8, 2);
    }
}

/// A prefix never takes more bytes than the whole.
pub proof fn lemma_byte_len_prefix(s: Seq<char>, k: int)
    requires
        0 <= k <= s.len(),
    ensures
        byte_len(s.take(k)) <= byte_len(s),
        byte_len(s.take(k)) + byte_len(s.skip(k)) == byte_len(s),
{
    assert(s =~= s.take(k) + s.skip(k));
    lemma_encode_concat(s.take(k), s.skip(k));
}

/// `fitting` is the one count whose prefix fits while the next longer prefix
/// does not.
pub proof fn lemma_fitting_unique(s: Seq<char>, budget: int, k: int)
    requires
        0 <= k <= s.len(),
        byte_len(s.take(k)) <= budget,
        k < s.len() ==> byte_len(s.take(k + 1)) > budget,
    ensures
        fitting(s, budget) == k,
    decreases s.len(),
{
    if s.len() == 0 {
    } else {
        let w = char_width(s[0]);
        lemma_byte_len_step(s, 0);
        assert(s.take(0) =~= Seq::<char>::empty());
        assert(byte_len(s.take(1)) == w);
        if k == 0 {
        } else {
            let rest = s.drop_first();
            assert(s.take(k).drop_first() =~= rest.take(k - 1));
            assert(s.take(k)[0] == s[0]);
            assert(byte_len(s.take(k)) == w + byte_len(rest.take(k - 1)));
            if k < s.len() {
                assert(s.take(k + 1).drop_first() =~= rest.take(k));
                assert(s.take(k + 1)[0] == s[0]);
                assert(byte_len(s.take(k + 1)) == w + byte_len(rest.take(k)));
            }
            lemma_fitting_unique(rest, budget - w, k - 1);
        }
    }
}

/// What `fitting` counts: a prefix that fits, and that cannot be extended.
pub proof fn lemma_fitting(s: Seq<char>, budget: int)
    requires
        0 <= budget,
    ensures
        fitting(s, budget) <= s.len(),
        byte_len(s.take(fitting(s, budget) as int)) <= budget,
        fitting(s, budget) < s.len() ==> byte_len(s.take(fitting(s, budget) as int + 1)) > budget,
    decreases s.len(),
{
    if s.len() == 0 {
        assert(s.take(0) =~= s);
    } else {
        let w = char_width(s[0]);
        lemma_byte_len_step(s, 0);
        assert(s.take(0) =~= Seq::<char>::empty());
        if w > budget {
        } else {
            let rest = s.drop_first();
            lemma_fitting(rest, budget - w);
            let k = fitting(rest, budget - w) as int;
            assert(s.take(k + 1).drop_first() =~= rest.take(k));
            assert(s.take(k + 1)[0] == s[0]);
            if k < rest.len() {
                assert(s.take(k + 2).drop_first() =~= rest.take(k + 1));
                assert(s.take(k + 2)[0] == s[0]);
            }
        }
    }
}

/// Clamping keeps a prefix that fits into the cap and that no further
/// character of the text could join; a text that fits is kept whole.
pub proof fn lemma_clamped(s: Seq<char>)
    ensures
        clamped(s).len() <= s.len(),
        clamped(s) == s.take(clamped(s).len() as int),
        byte_len(clamped(s)) <= TEXT_MAX_LEN,
        clamped(s).len() < s.len() ==> byte_len(s.take(clamped(s).len() as int + 1)) > TEXT_MAX_LEN,
        byte_len(s) <= TEXT_MAX_LEN <==> clamped(s) == s,
{
    lemma_fitting(s, TEXT_MAX_LEN as int);
    let k = fitting(s, TEXT_MAX_LEN as int) as int;
    assert(s.take(s.len() as int) =~= s);
    if k < s.len() {
        lemma_byte_len_prefix(s, k + 1);
    }
}

/// The end of every prefix's encoding is a character boundary of the whole
/// encoding.
pub proof fn lemma_prefix_boundary(s: Seq<char>, k: int)
    requires
        0 <= k <= s.len(),
    ensures
        is_char_boundary(encode_utf8(s), byte_len(s.take(k)) as int),
    decreases k,
{
    let bytes = encode_utf8(s);
    encode_utf8_valid_utf8(s);
    if k == 0 {
        assert(s.take(0) =~= Seq::<char>::empty());
    } else {
        let rest = s.drop_first();
        encode_utf8_first_scalar(s);
        assert(pop_first_scalar(bytes) =~= encode_utf8(rest));
        lemma_prefix_boundary(rest, k - 1);
        assert(s.take(k).drop_first() =~= rest.take(k - 1));
        assert(s.take(k)[0] == s[0]);
        lemma_byte_len_prefix(s, k);
    }
}

/// Splitting an encoding at a character boundary splits the text: the bytes
/// before the boundary encode a prefix of it.
pub proof fn lemma_boundary_prefix(s: Seq<char>, head: Seq<char>, index: int)
    requires
        is_char_boundary(encode_utf8(s), index),
        0 <= index <= byte_len(s),
        encode_utf8(head) == encode_utf8(s).subrange(0, index),
    ensures
        head.len() <= s.len(),
        head == s.take(head.len() as int),
        byte_len(head) == index,
{
    let bytes = encode_utf8(s);
    encode_utf8_valid_utf8(s);
    decode_utf8_split(bytes, index);
    encode_utf8_decode_utf8(s);
    encode_utf8_decode_utf8(head);
    let tail = decode_utf8(bytes.subrange(index, bytes.len() as int));
    assert(s =~= head + tail);
    assert(head =~= s.take(head.len() as int));
}

/// Cuts `text` down to its longest prefix of at most `TEXT_MAX_LEN` bytes.
/// A text that fits is returned as it is; a longer one is cut at the last
/// character boundary at or below the cap, so no character is split.
pub fn clamp(text: String) -> (out: String)
    ensures
        out@ == clamped(text@),
        out@ == text@.take(out@.len() as int),
        byte_len(out@) <= TEXT_MAX_LEN,
        byte_len(text@) <= TEXT_MAX_LEN ==> out@ == text@,
{
    broadcast use vstd::slice::group_slice_axioms;

    let whole: &str = text.as_str();
    let ghost bytes = encode_utf8(text@);
    let size: usize = whole.as_bytes().len();
    proof {
        encode_utf8_valid_utf8(text@);
    }
    if size <= TEXT_MAX_LEN {
        proof {
            assert(text@.take(text@.len() as int) =~= text@);
            lemma_fitting_unique(text@, TEXT_MAX_LEN as int, text@.len() as int);
        }
        return text;
    }
    let mut index: usize = TEXT_MAX_LEN;
    while !whole.is_char_boundary(index)
        invariant
            index <= TEXT_MAX_LEN < bytes.len(),
            bytes == encode_utf8(text@),
            whole@ == text@,
            valid_utf8(bytes),
            forall|j: int| index < j <= TEXT_MAX_LEN ==> !is_char_boundary(bytes, j),
        decreases index,
    {
        index = index - 1;
    }
    let (head, _) = whole.split_at(index);
    let out: String = head.to_owned();
    proof {
        let k = out@.len() as int;
        lemma_boundary_prefix(text@, out@, index as int);
        lemma_byte_len_prefix(text@, k);
        if k < text@.len() {
            lemma_byte_len_step(text@, k);
            lemma_char_width(text@[k]);
            lemma_prefix_boundary(text@, k + 1);
            lemma_byte_len_prefix(text@, k + 1);
        }
        lemma_fitting_unique(text@, TEXT_MAX_LEN as int, k);
    }
    out
}

/// The character that stands for the digit `d`.
pub open spec fn digit(d: nat) -> char {
    if d == 0 {
        '0'
    } else if d == 1 {
        '1'
    } else if d == 2 {
        '2'
    } else if d == 3 {
        '3'
    } else if d == 4 {
        '4'
    } else if d == 5 {
        '5'
    } else if d == 6 {
        '6'
    } else if d == 7 {
        '7'
    } else if d == 8 {
        '8'
    } else {
        '9'
    }
}

/// The decimal numeral of `n`: no sign, no leading zero, `"0"` for zero.
pub open spec fn decimal(n: nat) -> Seq<char>
    decreases n,
{
    if n < 10 {
        seq![digit(n)]
    } else {
        decimal(n / 10).push(digit(n % 10))
    }
}

/// A numeral is never empty and holds digits only.
pub proof fn lemma_decimal_digits(n: nat)
    ensures
        decimal(n).len() >= 1,
        forall|i: int| 0 <= i < decimal(n).len() ==> '0' <= #[trigger] decimal(n)[i] <= '9',
    decreases n,
{
    if n >= 10 {
        lemma_decimal_digits(n / 10);
    }
}

/// The one-character string of a digit.
fn digit_str(d: u32) -> (s: &'static str)
    requires
        d < 10,
    ensures
        s@ == seq![digit(d as nat)],
{
    proof {
        reveal_strlit("0");
        reveal_strlit("1");
        reveal_strlit("2");
        reveal_strlit("3");
        reveal_strlit("4");
        reveal_strlit("5");
        reveal_strlit("6");
        reveal_strlit("7");
        reveal_strlit("8");
        reveal_strlit("9");
    }
    let s: &'static str = if d == 0 {
        "0"
    } else if d == 1 {
        "1"
    } else if d == 2 {
        "2"
    } else if d == 3 {
        "3"
    } else if d == 4 {
        "4"
    } else if d == 5 {
        "5"
    } else if d == 6 {
        "6"
    } else if d == 7 {
        "7"
    } else if d == 8 {
        "8"
    } else {
        "9"
    };
    assert(s@ =~= seq![digit(d as nat)]);
    s
}

/// Appends the decimal numeral of `n` to `out`.
pub fn push_decimal(out: &mut String, n: u32)
    ensures
        final(out)@ == old(out)@ + decimal(n as nat),
    decreases n,
{
    if n >= 10 {
        push_decimal(out, n / 10);
    }
    out.append(digit_str(n % 10));
    assert(out@ =~= old(out)@ + decimal(n as nat));
}

} // verus!
