use vstd::prelude::*;

verus! {

/// ASCII lower-casing of a single byte.
pub open spec fn ascii_lower(c: u8) -> u8 {
    if 65 <= c && c <= 90 {
        (c + 32) as u8
    } else {
        c
    }
}

/// The views of a sequence of byte vectors.
pub open spec fn seq_views(v: Seq<Vec<u8>>) -> Seq<Seq<u8>> {
    v.map_values(|x: Vec<u8>| x@)
}

/// Splitting at every single space, the way the helpers of the wire parser
/// see a byte string: consecutive spaces yield empty tokens, a trailing
/// space yields nothing after it.  `cur` is the token under construction.
pub open spec fn split_sp_from(s: Seq<u8>, cur: Seq<u8>) -> Seq<Seq<u8>>
    decreases s.len(),
{
    if s.len() == 0 {
        if cur.len() == 0 {
            Seq::empty()
        } else {
            seq![cur]
        }
    } else if s[0] == 32 {
        seq![cur] + split_sp_from(s.skip(1), Seq::empty())
    } else {
        split_sp_from(s.skip(1), cur.push(s[0]))
    }
}

pub open spec fn split_sp(s: Seq<u8>) -> Seq<Seq<u8>> {
    split_sp_from(s, Seq::empty())
}

/// The longest space-free prefix of a byte string.
pub open spec fn take_until_sp(s: Seq<u8>) -> Seq<u8>
    decreases s.len(),
{
    if s.len() == 0 || s[0] == 32 {
        Seq::empty()
    } else {
        seq![s[0]] + take_until_sp(s.skip(1))
    }
}

/// The space-free prefix is a prefix, has no spaces, and ends at the first
/// space if there is one.
pub proof fn lemma_take_until_sp(s: Seq<u8>)
    ensures
        take_until_sp(s).len() <= s.len(),
        forall|i: int| 0 <= i < take_until_sp(s).len() ==> #[trigger] take_until_sp(s)[i] == s[i]
            && s[i] != 32,
        take_until_sp(s).len() == s.len() || s[take_until_sp(s).len() as int] == 32,
    decreases s.len(),
{
    if s.len() > 0 && s[0] != 32 {
        lemma_take_until_sp(s.skip(1));
        let t = take_until_sp(s);
        assert forall|i: int| 0 <= i < t.len() implies #[trigger] t[i] == s[i] && s[i] != 32 by {
            if i > 0 {
                assert(t[i] == take_until_sp(s.skip(1))[i - 1]);
                assert(take_until_sp(s.skip(1))[i - 1] == s.skip(1)[i - 1]);
            }
        }
        if take_until_sp(s.skip(1)).len() < s.skip(1).len() {
            assert(s.skip(1)[take_until_sp(s.skip(1)).len() as int] == 32);
        }
    }
}

/// Tokens joined back together, each followed by one space.
pub open spec fn join_sp(toks: Seq<Seq<u8>>) -> Seq<u8>
    decreases toks.len(),
{
    if toks.len() == 0 {
        Seq::empty()
    } else {
        join_sp(toks.drop_last()) + toks.last() + seq![32u8]
    }
}

/// What `unsplit_string` yields: the window `argv[start..argc]`, its first
/// `max` entries joined with trailing spaces; the empty string when the
/// window is too short.
pub open spec fn unsplit_spec(argv: Seq<Seq<u8>>, argc: int, start: int, max: int) -> Seq<u8> {
    let window = if 0 <= start <= argc <= argv.len() {
        argv.subrange(start, argc)
    } else {
        Seq::empty()
    };
    if max > window.len() {
        Seq::empty()
    } else {
        join_sp(window.take(max))
    }
}

/// A byte string with every trailing carriage return and line feed removed.
pub open spec fn trimmed_right(s: Seq<u8>) -> Seq<u8>
    decreases s.len(),
{
    if s.len() > 0 && (s.last() == 13 || s.last() == 10) {
        trimmed_right(s.drop_last())
    } else {
        s
    }
}

/// The base-64 digit alphabet of the numnick codec, in order:
/// `A-Z`, `a-z`, `0-9`, `[`, `]`.
pub open spec fn b64_char(d: int) -> u8 {
    if 0 <= d < 26 {
        (65 + d) as u8
    } else if 26 <= d < 52 {
        (97 + d - 26) as u8
    } else if 52 <= d < 62 {
        (48 + d - 52) as u8
    } else if d == 62 {
        91u8
    } else {
        93u8
    }
}

/// The value of one digit of that alphabet; -1 for a byte outside it.
pub open spec fn b64_val(c: u8) -> int {
    if 65 <= c <= 90 {
        c - 65
    } else if 97 <= c <= 122 {
        c - 97 + 26
    } else if 48 <= c <= 57 {
        c - 48 + 52
    } else if c == 91 {
        62
    } else if c == 93 {
        63
    } else {
        -1
    }
}

pub open spec fn is_b64_digit(c: u8) -> bool {
    b64_val(c) >= 0
}

/// The number encoded by a big-endian string of those digits.
pub open spec fn b64_seq_val(s: Seq<u8>) -> int
    decreases s.len(),
{
    if s.len() == 0 {
        0
    } else {
        b64_seq_val(s.drop_last()) * 64 + b64_val(s.last())
    }
}

/// 64 to the power `k`.
pub open spec fn pow64(k: nat) -> int
    decreases k,
{
    if k == 0 {
        1
    } else {
        64 * pow64((k - 1) as nat)
    }
}

/// The decimal rendering of a number, as ASCII digit bytes.
pub open spec fn dec_digits(n: int) -> Seq<u8>
    decreases n,
{
    if n < 10 {
        seq![(48 + if n < 0 { 0int } else { n }) as u8]
    } else {
        dec_digits(n / 10).push((48 + n % 10) as u8)
    }
}

/// Ceiling of `n / d`, for positive `n` and `d`.
pub open spec fn ceil_div(n: int, d: int) -> int {
    1 + (n - 1) / d
}

pub fn split_string(input: &[u8]) -> (r: Vec<Vec<u8>>)
    ensures
        seq_views(r@) == split_sp(input@),
{
    let mut buf: Vec<Vec<u8>> = Vec::new();
    let mut tmp: Vec<u8> = Vec::new();
    let mut i: usize = 0;
    proof {
        assert(input@.skip(0) =~= input@);
        assert(seq_views(buf@) + split_sp_from(input@, tmp@) =~= split_sp(input@));
    }
    while i < input.len()
        invariant
            i <= input@.len(),
            split_sp(input@) == seq_views(buf@) + split_sp_from(input@.skip(i as int), tmp@),
        decreases input@.len() - i,
    {
        proof {
            assert(input@.skip(i as int).skip(1) =~= input@.skip(i + 1));
        }
        if input[i] == 32 {
            let ghost prev = buf@;
            let ghost cur = tmp@;
            buf.push(tmp);
            tmp = Vec::new();
            proof {
                assert(seq_views(buf@) =~= seq_views(prev).push(cur));
                assert(seq_views(prev) + (seq![cur] + split_sp_from(input@.skip(i + 1), Seq::empty()))
                    =~= seq_views(buf@) + split_sp_from(input@.skip(i + 1), Seq::empty()));
            }
        } else {
            tmp.push(input[i]);
        }
        i += 1;
    }
    proof {
        assert(input@.skip(i as int) =~= Seq::<u8>::empty());
    }
    if tmp.len() > 0 {
        let ghost prev = buf@;
        let ghost cur = tmp@;
        buf.push(tmp);
        proof {
            assert(seq_views(buf@) =~= seq_views(prev).push(cur));
            assert(seq_views(prev) + seq![cur] =~= seq_views(buf@));
        }
    } else {
        proof {
            assert(seq_views(buf@) + Seq::<Seq<u8>>::empty() =~= seq_views(buf@));
        }
    }
    buf
}

/// The space-free prefix reaches exactly to the first space.
pub proof fn lemma_take_until_sp_exact(s: Seq<u8>, n: int)
    requires
        0 <= n <= s.len(),
        forall|k: int| 0 <= k < n ==> #[trigger] s[k] != 32,
        n == s.len() || s[n] == 32,
    ensures
        take_until_sp(s) == s.take(n),
    decreases n,
{
    if n == 0 {
        assert(take_until_sp(s) =~= s.take(0));
    } else {
        assert forall|k: int| 0 <= k < n - 1 implies #[trigger] s.skip(1)[k] != 32 by {
            assert(s.skip(1)[k] == s[k + 1]);
        }
        lemma_take_until_sp_exact(s.skip(1), n - 1);
        assert(seq![s[0]] + s.skip(1).take(n - 1) =~= s.take(n));
    }
}

pub fn unsplit_string(argv: &[Vec<u8>], argc: usize, startidx: usize, max: usize) -> (r: Vec<u8>)
    requires
        argc <= argv@.len(),
    ensures
        r@ == unsplit_spec(seq_views(argv@), argc as int, startidx as int, max as int),
{
    let mut dest: Vec<u8> = Vec::new();
    let window_len: usize = if startidx <= argc {
        argc - startidx
    } else {
        0
    };
    if max > window_len || startidx > argc {
        return dest;
    }
    let ghost window = seq_views(argv@).subrange(startidx as int, argc as int);
    let mut i: usize = 0;
    while i < max
        invariant
            max <= window_len,
            startidx + window_len == argc,
            startidx <= argc,
            argc <= argv@.len(),
            i <= max,
            window == seq_views(argv@).subrange(startidx as int, argc as int),
            dest@ == join_sp(window.take(i as int)),
        decreases max - i,
    {
        let ghost prev = dest@;
        dest.extend_from_slice(argv[startidx + i].as_slice());
        dest.push(32);
        proof {
            assert(window.take(i + 1).drop_last() =~= window.take(i as int));
            assert(window.take(i + 1).last() == argv@[startidx + i]@);
            assert(dest@ =~= join_sp(window.take(i as int)) + argv@[startidx + i]@ + seq![32u8]);
        }
        i += 1;
    }
    dest
}

pub fn u8_slice_to_lower(input: &[u8]) -> (r: Vec<u8>)
    ensures
        r@ == input@.map_values(|c: u8| ascii_lower(c)),
{
    let mut buf: Vec<u8> = Vec::new();
    let mut i: usize = 0;
    while i < input.len()
        invariant
            i <= input@.len(),
            buf@ == input@.take(i as int).map_values(|c: u8| ascii_lower(c)),
        decreases input@.len() - i,
    {
        let c = input[i];
        if 65 <= c && c <= 90 {
            buf.push(c + 32);
        } else {
            buf.push(c);
        }
        proof {
            assert(buf@ =~= input@.take(i + 1).map_values(|c: u8| ascii_lower(c)));
        }
        i += 1;
    }
    proof {
        assert(input@.take(i as int) =~= input@);
    }
    buf
}

pub fn trim_bytes_right(input: &[u8]) -> (r: &[u8])
    ensures
        r@ == trimmed_right(input@),
{
    let mut n: usize = input.len();
    proof {
        assert(input@.take(n as int) =~= input@);
    }
    while n > 0 && (input[n - 1] == 13 || input[n - 1] == 10)
        invariant
            n <= input@.len(),
            trimmed_right(input@) == trimmed_right(input@.take(n as int)),
        decreases n,
    {
        proof {
            assert(input@.take(n as int).drop_last() =~= input@.take(n - 1));
        }
        n -= 1;
    }
    proof {
        if n == input@.len() {
            assert(input@.take(n as int) =~= input@);
        }
    }
    vstd::slice::slice_subrange(input, 0, n)
}

pub fn ceiling_division(left: usize, right: usize) -> (r: usize)
    requires
        left > 0,
        right > 0,
    ensures
        r == ceil_div(left as int, right as int),
{
    proof {
        assert((left - 1) as int / right as int <= (left - 1) as int) by (nonlinear_arith)
            requires
                left > 0,
                right > 0,
        ;
    }
    1 + (left - 1) / right
}

/// A fresh byte vector holding the bytes of `s`.
pub fn bytes_of(s: &[u8]) -> (r: Vec<u8>)
    ensures
        r@ == s@,
{
    vstd::slice::slice_to_vec(s)
}

/// True of byte strings made only of ASCII decimal digits.
pub open spec fn is_dec_digits(s: Seq<u8>) -> bool {
    s.len() > 0 && forall|i: int| 0 <= i < s.len() ==> 48 <= #[trigger] s[i] <= 57
}

/// The number written in decimal by a digit string.
pub open spec fn dec_val(s: Seq<u8>) -> int
    decreases s.len(),
{
    if s.len() == 0 {
        0
    } else {
        dec_val(s.drop_last()) * 10 + (s.last() - 48)
    }
}

pub proof fn lemma_dec_val_nonneg(s: Seq<u8>)
    requires
        forall|i: int| 0 <= i < s.len() ==> 48 <= #[trigger] s[i] <= 57,
    ensures
        dec_val(s) >= 0,
    decreases s.len(),
{
    if s.len() > 0 {
        lemma_dec_val_nonneg(s.drop_last());
    }
}

/// A digit string's value never shrinks as the string grows to the right.
pub proof fn lemma_dec_val_take_mono(s: Seq<u8>, i: int, j: int)
    requires
        forall|k: int| 0 <= k < s.len() ==> 48 <= #[trigger] s[k] <= 57,
        0 <= i <= j <= s.len(),
    ensures
        dec_val(s.take(i)) <= dec_val(s.take(j)),
    decreases j - i,
{
    if i < j {
        lemma_dec_val_take_mono(s, i, j - 1);
        assert(s.take(j).drop_last() =~= s.take(j - 1));
        lemma_dec_val_nonneg(s.take(j - 1));
    }
}

/// Reads a base-10 unsigned 64-bit number; `None` exactly when the bytes
/// are not all digits, the string is empty, or the value does not fit.
pub fn parse_u64_bytes(s: &[u8]) -> (r: Option<u64>)
    ensures
        r is Some <==> is_dec_digits(s@) && dec_val(s@) <= u64::MAX,
        r matches Some(v) ==> v as int == dec_val(s@),
{
    if s.len() == 0 {
        return None;
    }
    let mut acc: u64 = 0;
    let mut i: usize = 0;
    while i < s.len()
        invariant
            0 < s@.len(),
            i <= s@.len(),
            forall|k: int| 0 <= k < i ==> 48 <= #[trigger] s@[k] <= 57,
            acc as int == dec_val(s@.take(i as int)),
        decreases s@.len() - i,
    {
        let c = s[i];
        if c < 48 || c > 57 {
            return None;
        }
        let d: u64 = (c - 48) as u64;
        proof {
            assert(s@.take(i + 1).drop_last() =~= s@.take(i as int));
        }
        if acc > (u64::MAX - d) / 10 {
            proof {
                assert(acc as int * 10 + d > u64::MAX) by (nonlinear_arith)
                    requires
                        acc as int > (u64::MAX - d as int) / 10,
                        0 <= d <= 9,
                        acc >= 0,
                ;
                if is_dec_digits(s@) {
                    lemma_dec_val_take_mono(s@, i + 1, s@.len() as int);
                    assert(s@.take(s@.len() as int) =~= s@);
                }
            }
            return None;
        }
        proof {
            assert(acc as int * 10 + d <= u64::MAX) by (nonlinear_arith)
                requires
                    acc as int <= (u64::MAX - d as int) / 10,
                    0 <= d <= 9,
                    acc >= 0,
            ;
        }
        acc = acc * 10 + d;
        i += 1;
    }
    proof {
        assert(s@.take(i as int) =~= s@);
    }
    Some(acc)
}

/// The value written by an optionally `-`-signed digit string.
pub open spec fn signed_dec_val(s: Seq<u8>) -> int {
    if s.len() > 0 && s[0] == 45 {
        -dec_val(s.skip(1))
    } else {
        dec_val(s)
    }
}

pub open spec fn is_signed_dec(s: Seq<u8>) -> bool {
    if s.len() > 0 && s[0] == 45 {
        is_dec_digits(s.skip(1))
    } else {
        is_dec_digits(s)
    }
}

/// Reads a base-10 signed 8-bit number; `None` exactly when the bytes are
/// not a signed digit string or the value does not fit.
pub fn parse_i8_bytes(s: &[u8]) -> (r: Option<i8>)
    ensures
        r is Some <==> is_signed_dec(s@) && -128 <= signed_dec_val(s@) <= 127,
        r matches Some(v) ==> v as int == signed_dec_val(s@),
{
    if s.len() > 0 && s[0] == 45 {
        let rest = vstd::slice::slice_subrange(s, 1, s.len());
        match parse_u64_bytes(rest) {
            Some(v) => {
                if v > 128 {
                    proof {
                        lemma_dec_val_nonneg(s@.skip(1));
                    }
                    None
                } else if v == 128 {
                    Some(i8::MIN)
                } else {
                    Some(-(v as i8))
                }
            },
            None => {
                proof {
                    if is_dec_digits(s@.skip(1)) && -128 <= signed_dec_val(s@) {
                        lemma_dec_val_nonneg(s@.skip(1));
                    }
                }
                None
            },
        }
    } else {
        match parse_u64_bytes(s) {
            Some(v) => {
                if v > 127 {
                    None
                } else {
                    Some(v as i8)
                }
            },
            None => {
                proof {
                    if is_dec_digits(s@) {
                        lemma_dec_val_nonneg(s@);
                    }
                }
                None
            },
        }
    }
}

/// Writes `n` in decimal.
pub fn u64_to_dec(n: u64) -> (r: Vec<u8>)
    ensures
        r@ == dec_digits(n as int),
{
    let mut buf: Vec<u8> = Vec::new();
    let mut v: u64 = n;
    proof {
        assert(dec_digits(v as int) + buf@.reverse() =~= dec_digits(n as int));
    }
    while v >= 10
        invariant
            dec_digits(n as int) == dec_digits(v as int) + buf@.reverse(),
        decreases v,
    {
        let ghost prev = buf@;
        buf.push((v % 10) as u8 + 48);
        proof {
            assert(buf@.reverse() =~= seq![(48 + v as int % 10) as u8] + prev.reverse());
            assert(dec_digits(v as int / 10) + buf@.reverse()
                =~= dec_digits(v as int) + prev.reverse());
        }
        v = v / 10;
    }
    let ghost prev = buf@;
    buf.push(v as u8 + 48);
    proof {
        assert(buf@.reverse() =~= seq![(48 + v as int) as u8] + prev.reverse());
        assert(buf@.reverse() =~= dec_digits(v as int) + prev.reverse());
        assert(buf@.reverse() =~= dec_digits(n as int));
    }
    reverse_bytes(&buf)
}

/// A fresh byte vector with the bytes of `v` in the opposite order.
pub fn reverse_bytes(v: &Vec<u8>) -> (r: Vec<u8>)
    ensures
        r@ == v@.reverse(),
{
    let mut r: Vec<u8> = Vec::new();
    let mut i: usize = 0;
    let n = v.len();
    while i < n
        invariant
            n == v@.len(),
            i <= n,
            r@.len() == i,
            forall|k: int| 0 <= k < i ==> r@[k] == v@[n - 1 - k],
        decreases n - i,
    {
        r.push(v[n - 1 - i]);
        i += 1;
    }
    proof {
        assert(r@ =~= v@.reverse());
    }
    r
}

pub proof fn lemma_b64_char_val(d: int)
    requires
        0 <= d < 64,
    ensures
        b64_val(b64_char(d)) == d,
        is_b64_digit(b64_char(d)),
{
}

/// Prepending a digit adds its value times the weight of the position.
pub proof fn lemma_b64_seq_val_prepend(c: u8, s: Seq<u8>)
    ensures
        b64_seq_val(seq![c] + s) == b64_val(c) * pow64(s.len()) + b64_seq_val(s),
    decreases s.len(),
{
    if s.len() == 0 {
        assert(seq![c] + s =~= seq![c]);
        assert(seq![c].drop_last() =~= Seq::<u8>::empty());
        assert(seq![c].last() == c);
        assert(b64_seq_val(seq![c]) == b64_seq_val(Seq::<u8>::empty()) * 64 + b64_val(c));
    } else {
        assert((seq![c] + s).drop_last() =~= seq![c] + s.drop_last());
        assert((seq![c] + s).last() == s.last());
        lemma_b64_seq_val_prepend(c, s.drop_last());
        assert((b64_val(c) * pow64(s.drop_last().len()) + b64_seq_val(s.drop_last())) * 64
            + b64_val(s.last()) == b64_val(c) * pow64(s.len()) + b64_seq_val(s))
            by (nonlinear_arith)
            requires
                pow64(s.len()) == 64 * pow64(s.drop_last().len()),
                b64_seq_val(s) == b64_seq_val(s.drop_last()) * 64 + b64_val(s.last()),
        ;
    }
}

/// A string of valid digits encodes a value below the weight of its length.
pub proof fn lemma_b64_seq_val_bound(s: Seq<u8>)
    requires
        forall|i: int| 0 <= i < s.len() ==> is_b64_digit(#[trigger] s[i]),
    ensures
        0 <= b64_seq_val(s) < pow64(s.len()),
    decreases s.len(),
{
    if s.len() > 0 {
        lemma_b64_seq_val_bound(s.drop_last());
        assert(0 <= b64_seq_val(s.drop_last()) * 64 + b64_val(s.last()) < 64 * pow64(
            s.drop_last().len(),
        )) by (nonlinear_arith)
            requires
                0 <= b64_seq_val(s.drop_last()) < pow64(s.drop_last().len()),
                0 <= b64_val(s.last()) < 64,
        ;
    }
}

pub proof fn lemma_pow64_pos(k: nat)
    ensures
        pow64(k) >= 1,
    decreases k,
{
    if k > 0 {
        lemma_pow64_pos((k - 1) as nat);
    }
}

/// Writes `v` as exactly `count` big-endian base-64 digits of the numnick
/// alphabet.  The digits read back as `v` modulo the width; a value that
/// fits the width is reconstructed exactly.
pub fn inttobase64(v: usize, count: usize) -> (r: Vec<u8>)
    ensures
        r@.len() == count,
        forall|i: int| 0 <= i < r@.len() ==> is_b64_digit(#[trigger] r@[i]),
        b64_seq_val(r@) == v as int % pow64(count as nat),
        v < pow64(count as nat) ==> b64_seq_val(r@) == v,
{
    let mut buf: Vec<u8> = Vec::new();
    let mut x: usize = v;
    let mut k: usize = 0;
    proof {
        assert(buf@.reverse() =~= Seq::<u8>::empty());
    }
    while k < count
        invariant
            k <= count,
            buf@.len() == k,
            forall|i: int| 0 <= i < buf@.len() ==> is_b64_digit(#[trigger] buf@[i]),
            v as int == b64_seq_val(buf@.reverse()) + x as int * pow64(k as nat),
        decreases count - k,
    {
        let d: u8 = (x % 64) as u8;
        let c: u8 = b64_char_of(d);
        let ghost prev = buf@;
        let ghost xi = x as int;
        buf.push(c);
        proof {
            assert(buf@.reverse() =~= seq![c] + prev.reverse());
            lemma_b64_char_val(d as int);
            lemma_b64_seq_val_prepend(c, prev.reverse());
            assert(prev.reverse().len() == k);
            assert(b64_seq_val(buf@.reverse()) + (xi / 64) * pow64((k + 1) as nat) == b64_seq_val(
                prev.reverse(),
            ) + xi * pow64(k as nat)) by (nonlinear_arith)
                requires
                    b64_seq_val(buf@.reverse()) == (xi % 64) * pow64(k as nat) + b64_seq_val(
                        prev.reverse(),
                    ),
                    pow64((k + 1) as nat) == 64 * pow64(k as nat),
                    xi >= 0,
            ;
        }
        x = x / 64;
        k += 1;
    }
    let r = reverse_bytes(&buf);
    proof {
        assert(r@ =~= buf@.reverse());
        lemma_b64_seq_val_bound(r@);
        lemma_pow64_pos(count as nat);
        assert(x as int * pow64(count as nat) >= 0) by (nonlinear_arith)
            requires
                x >= 0,
                pow64(count as nat) >= 1,
        ;
        vstd::arithmetic::div_mod::lemma_fundamental_div_mod_converse(
            v as int,
            pow64(count as nat),
            x as int,
            b64_seq_val(r@),
        );
        if v < pow64(count as nat) {
            vstd::arithmetic::div_mod::lemma_small_mod(v as nat, pow64(count as nat) as nat);
        }
    }
    r
}

/// The digit byte of one base-64 value of the numnick alphabet.
pub fn b64_char_of(d: u8) -> (c: u8)
    requires
        d < 64,
    ensures
        c == b64_char(d as int),
{
    if d < 26 {
        65 + d
    } else if d < 52 {
        97 + (d - 26)
    } else if d < 62 {
        48 + (d - 52)
    } else if d == 62 {
        91
    } else {
        93
    }
}

/// Byte-exact comparison of two byte strings.
pub fn bytes_eq(a: &[u8], b: &[u8]) -> (r: bool)
    ensures
        r <==> a@ == b@,
{
    if a.len() != b.len() {
        return false;
    }
    let mut i: usize = 0;
    while i < a.len()
        invariant
            a@.len() == b@.len(),
            i <= a@.len(),
            forall|k: int| 0 <= k < i ==> a@[k] == b@[k],
        decreases a@.len() - i,
    {
        if a[i] != b[i] {
            return false;
        }
        i += 1;
    }
    proof {
        assert(a@ =~= b@);
    }
    true
}


/// Whether a list of byte strings holds one equal to `x`.
pub fn vec_contains_bytes(v: &Vec<Vec<u8>>, x: &[u8]) -> (r: bool)
    ensures
        r <==> exists|i: int| 0 <= i < v@.len() && #[trigger] v@[i]@ == x@,
{
    let n = v.len();
    let mut i: usize = 0;
    while i < n
        invariant
            n == v@.len(),
            i <= n,
            forall|k: int| 0 <= k < i ==> #[trigger] v@[k]@ != x@,
        decreases n - i,
    {
        if bytes_eq(v[i].as_slice(), x) {
            return true;
        }
        i += 1;
    }
    false
}

} // verus!
