//! Destinations of the form `host:port`.
use vstd::prelude::*;
use vstd::string::*;

verus! {

/// Why a text is no destination.
#[derive(Clone, Copy, PartialEq, Eq, Structural, Debug)]
pub enum DestError {
    /// There is no colon.
    MissingPort,
    /// What follows the last colon is no port number.
    InvalidPort,
}

/// A destination, taken apart.
pub struct Dest {
    pub host: String,
    pub port: u16,
}

/// The place of the last colon of `s`, or -1.
pub open spec fn last_colon(s: Seq<char>) -> int
    decreases s.len(),
{
    if s.len() == 0 {
        -1
    } else if s.last() == ':' {
        s.len() - 1
    } else {
        last_colon(s.drop_last())
    }
}

/// `c` is a decimal digit.
pub open spec fn is_digit(c: char) -> bool {
    '0' <= c <= '9'
}

/// All characters of `s` are decimal digits.
pub open spec fn all_digits(s: Seq<char>) -> bool {
    forall|i: int| 0 <= i < s.len() ==> is_digit(#[trigger] s[i])
}

/// The number that the digits of `s` spell.
pub open spec fn decimal_value(s: Seq<char>) -> nat
    decreases s.len(),
{
    if s.len() == 0 {
        0
    } else {
        decimal_value(s.drop_last()) * 10 + (s.last() as u32 - '0' as u32) as nat
    }
}

/// The decimal digits of `n`, without leading zeros.
pub open spec fn decimal(n: nat) -> Seq<char>
    decreases n,
{
    if n < 10 {
        seq![('0' as u32 + n) as char]
    } else {
        decimal(n / 10).push(('0' as u32 + n % 10) as char)
    }
}

/// `s` without a plus sign in front.
pub open spec fn without_plus(s: Seq<char>) -> Seq<char> {
    if s.len() > 0 && s[0] == '+' {
        s.skip(1)
    } else {
        s
    }
}

/// The port that `s` spells: at least one digit, perhaps after a plus sign, and
/// no more than 16 bits.
pub open spec fn port_value(s: Seq<char>) -> Option<u16> {
    let digits = without_plus(s);
    if digits.len() > 0 && all_digits(digits) && decimal_value(digits) <= 0xffff {
        Some(decimal_value(digits) as u16)
    } else {
        None
    }
}

/// The host and the port of a destination. The port follows the last colon.
pub open spec fn dest_parts(s: Seq<char>) -> Result<(Seq<char>, u16), DestError> {
    let at = last_colon(s);
    if at < 0 {
        Err(DestError::MissingPort)
    } else {
        match port_value(s.skip(at + 1)) {
            Some(port) => Ok((s.take(at), port)),
            None => Err(DestError::InvalidPort),
        }
    }
}

/// The text of a destination.
pub open spec fn dest_text(host: Seq<char>, port: nat) -> Seq<char> {
    host + seq![':'] + decimal(port)
}

/// Takes a destination apart.
pub fn parse_dest(dest: &str) -> (r: Result<Dest, DestError>)
    ensures
        match r {
            Ok(d) => dest_parts(dest@) == Ok::<(Seq<char>, u16), DestError>((d.host@, d.port)),
            Err(e) => dest_parts(dest@) == Err::<(Seq<char>, u16), DestError>(e),
        },
{
    let n: usize = dest.unicode_len();
    let mut end: usize = n;
    assert(dest@.take(n as int) =~= dest@);
    while end > 0 && dest.get_char(end - 1) != ':'
        invariant
            end <= n,
            n == dest@.len(),
            last_colon(dest@.take(end as int)) == last_colon(dest@),
        decreases end,
    {
        assert(dest@.take(end as int).drop_last() =~= dest@.take(end - 1));
        end = end - 1;
    }
    if end == 0 {
        return Err(DestError::MissingPort);
    }
    let at: usize = end - 1;
    assert(last_colon(dest@) == at);
    match parse_port(dest.substring_char(end, n)) {
        Some(port) => {
            assert(dest@.subrange(end as int, n as int) =~= dest@.skip(at + 1));
            assert(dest@.subrange(0, at as int) =~= dest@.take(at as int));
            Ok(Dest { host: String::from_str(dest.substring_char(0, at)), port })
        },
        None => {
            assert(dest@.subrange(end as int, n as int) =~= dest@.skip(at + 1));
            Err(DestError::InvalidPort)
        },
    }
}

/// Reads a port number.
pub fn parse_port(text: &str) -> (r: Option<u16>)
    ensures
        r == port_value(text@),
{
    let n: usize = text.unicode_len();
    let start: usize = if n > 0 && text.get_char(0) == '+' {
        1
    } else {
        0
    };
    let ghost digits: Seq<char> = without_plus(text@);
    assert(digits =~= text@.skip(start as int));
    if start == n {
        return None;
    }
    let mut value: u32 = 0;
    let mut i: usize = start;
    assert(digits.take(0) =~= Seq::empty());
    while i < n
        invariant
            start <= i <= n,
            n == text@.len(),
            start <= 1,
            digits == without_plus(text@),
            digits == text@.skip(start as int),
            digits.len() == n - start,
            all_digits(digits.take(i - start)),
            value == decimal_value(digits.take(i - start)),
            value <= 0xffff,
        decreases n - i,
    {
        let c: char = text.get_char(i);
        let ghost k: int = i - start;
        assert(c == digits[k]);
        if !(c >= '0' && c <= '9') {
            assert(!is_digit(digits[k]));
            return None;
        }
        value = value * 10 + (c as u32 - '0' as u32);
        proof {
            let next = digits.take(k + 1);
            assert(next.drop_last() =~= digits.take(k));
            assert forall|j: int| 0 <= j < next.len() implies is_digit(#[trigger] next[j]) by {
                if j < k {
                    assert(is_digit(digits.take(k)[j]));
                }
            }
        }
        if value > 0xffff {
            proof {
                if all_digits(digits) {
                    lemma_decimal_value_grows(digits, k + 1);
                }
            }
            return None;
        }
        i = i + 1;
    }
    assert(digits.take(n - start) =~= digits);
    Some(value as u16)
}

/// More digits never make a smaller number.
proof fn lemma_decimal_value_grows(s: Seq<char>, k: int)
    requires
        0 <= k <= s.len(),
    ensures
        decimal_value(s.take(k)) <= decimal_value(s),
    decreases s.len(),
{
    if k < s.len() {
        lemma_decimal_value_grows(s.drop_last(), k);
        assert(s.drop_last().take(k) =~= s.take(k));
    } else {
        assert(s.take(k) =~= s);
    }
}

/// One digit as text.
fn digit_text(d: u16) -> (r: &'static str)
    requires
        d < 10,
    ensures
        r@ == seq![('0' as u32 + d) as char],
{
    proof {
        reveal_strlit("0");
        reveal_strlit("1");
        reveal_strlit("2");
        reveal_strlit("3");
        reveal_strlit("4");
        reveal_strlit("5");
        reveal_strlit("6");
        reveal_strlit("7");
        reveal_strlit("8");
        reveal_strlit("9");
    }
    let r: &'static str = if d == 0 {
        "0"
    } else if d == 1 {
        "1"
    } else if d == 2 {
        "2"
    } else if d == 3 {
        "3"
    } else if d == 4 {
        "4"
    } else if d == 5 {
        "5"
    } else if d == 6 {
        "6"
    } else if d == 7 {
        "7"
    } else if d == 8 {
        "8"
    } else {
        "9"
    };
    assert(r@ =~= seq![('0' as u32 + d) as char]);
    r
}

/// A number as decimal text.
fn decimal_text(n: u16) -> (r: String)
    ensures
        r@ == decimal(n as nat),
    decreases n,
{
    if n < 10 {
        String::from_str(digit_text(n))
    } else {
        let mut r: String = decimal_text(n / 10);
        r.append(digit_text(n % 10));
        assert(r@ =~= decimal(n as nat));
        r
    }
}

/// The destination with the port one higher: RTCP runs on the port after that of
/// RTP.
pub fn bump_port(dest: &str) -> (r: String)
    requires
        dest_parts(dest@) matches Ok(parts) && parts.1 < 0xffff,
    ensures
        dest_parts(dest@) matches Ok(parts) && r@ == dest_text(parts.0, parts.1 as nat + 1),
{
    match parse_dest(dest) {
        Ok(d) => {
            let port: String = decimal_text(d.port + 1);
            let mut r: String = d.host;
            proof {
                reveal_strlit(":");
            }
            r.append(":");
            r.append(port.as_str());
            assert(r@ =~= dest_text(dest_parts(dest@)->Ok_0.0, d.port as nat + 1));
            r
        },
        Err(_) => {
            assert(false);
            String::new()
        },
    }
}

/// Written ports are read back.
pub proof fn decimal_port_is_read_back(n: nat)
    requires
        n <= 0xffff,
    ensures
        port_value(decimal(n)) == Some(n as u16),
{
    lemma_decimal(n);
}

proof fn lemma_decimal(n: nat)
    ensures
        decimal(n).len() > 0,
        all_digits(decimal(n)),
        decimal_value(decimal(n)) == n,
    decreases n,
{
    if n >= 10 {
        lemma_decimal(n / 10);
        assert(decimal(n).drop_last() =~= decimal(n / 10));
        assert(decimal(n).last() as u32 == '0' as u32 + n % 10);
        assert forall|i: int| 0 <= i < decimal(n).len() implies is_digit(
            #[trigger] decimal(n)[i],
        ) by {
            if i < decimal(n).len() - 1 {
                assert(is_digit(decimal(n / 10)[i]));
            }
        }
    } else {
        assert(decimal(n).drop_last() =~= Seq::empty());
        assert(decimal_value(decimal(n).drop_last()) == 0);
        assert(decimal(n).last() as u32 == '0' as u32 + n);
    }
}

/// A written destination is taken apart into what it was made of, whatever the
/// host holds.
pub proof fn dest_is_read_back(host: Seq<char>, port: u16)
    ensures
        dest_parts(dest_text(host, port as nat)) == Ok::<(Seq<char>, u16), DestError>(
            (host, port),
        ),
{
    let s = dest_text(host, port as nat);
    let digits = decimal(port as nat);
    lemma_decimal(port as nat);
    lemma_last_colon(host, digits);
    assert(s =~= (host + seq![':']) + digits);
    assert(s.skip(host.len() as int + 1) =~= digits);
    assert(s.take(host.len() as int) =~= host);
}

proof fn lemma_last_colon(host: Seq<char>, digits: Seq<char>)
    requires
        all_digits(digits),
    ensures
        last_colon((host + seq![':']) + digits) == host.len(),
    decreases digits.len(),
{
    let s = (host + seq![':']) + digits;
    if digits.len() == 0 {
        assert(s =~= host.push(':'));
    } else {
        let front = digits.drop_last();
        assert(is_digit(digits[digits.len() - 1]));
        assert forall|i: int| 0 <= i < front.len() implies is_digit(#[trigger] front[i]) by {
            assert(is_digit(digits[i]));
        }
        assert(s.drop_last() =~= (host + seq![':']) + front);
        lemma_last_colon(host, front);
    }
}

/// Bumping the port keeps the host and adds one to the port.
pub proof fn bumped_dest_has_the_next_port(dest: Seq<char>)
    requires
        dest_parts(dest) matches Ok(parts) && parts.1 < 0xffff,
    ensures
        dest_parts(dest) matches Ok(parts) && dest_parts(
            dest_text(parts.0, parts.1 as nat + 1),
        ) == Ok::<(Seq<char>, u16), DestError>((parts.0, (parts.1 + 1) as u16)),
{
    let parts = dest_parts(dest)->Ok_0;
    dest_is_read_back(parts.0, (parts.1 + 1) as u16);
}

/// There is no colon in `t`.
pub open spec fn colon_free(t: Seq<char>) -> bool {
    forall|i: int| 0 <= i < t.len() ==> #[trigger] t[i] != ':'
}

/// A text that is a host, a colon and a rest without a colon is taken apart at that
/// colon. It is a destination if and only if the rest is a port.
pub proof fn dest_is_split_at_the_last_colon(host: Seq<char>, rest: Seq<char>)
    requires
        colon_free(rest),
    ensures
        match port_value(rest) {
            Some(port) => dest_parts((host + seq![':']) + rest) == Ok::<
                (Seq<char>, u16),
                DestError,
            >((host, port)),
            None => dest_parts((host + seq![':']) + rest) == Err::<(Seq<char>, u16), DestError>(
                DestError::InvalidPort,
            ),
        },
{
    let s = (host + seq![':']) + rest;
    lemma_colon_before(host, rest);
    assert(s.skip(host.len() as int + 1) =~= rest);
    assert(s.take(host.len() as int) =~= host);
}

proof fn lemma_colon_before(host: Seq<char>, rest: Seq<char>)
    requires
        colon_free(rest),
    ensures
        last_colon((host + seq![':']) + rest) == host.len(),
    decreases rest.len(),
{
    let s = (host + seq![':']) + rest;
    if rest.len() == 0 {
        assert(s =~= host.push(':'));
    } else {
        let front = rest.drop_last();
        assert(rest[rest.len() - 1] != ':');
        assert forall|i: int| 0 <= i < front.len() implies #[trigger] front[i] != ':' by {
            assert(rest[i] != ':');
        }
        assert(s.drop_last() =~= (host + seq![':']) + front);
        lemma_colon_before(host, front);
    }
}

/// A port is missing if and only if there is no colon at all.
pub proof fn missing_port_means_no_colon(s: Seq<char>)
    ensures
        dest_parts(s) == Err::<(Seq<char>, u16), DestError>(DestError::MissingPort) <==> colon_free(
            s,
        ),
{
    lemma_last_colon_place(s);
    let at = last_colon(s);
    if at < 0 {
        assert(colon_free(s));
    } else {
        assert(s[at] == ':');
    }
}

proof fn lemma_last_colon_place(s: Seq<char>)
    ensures
        -1 <= last_colon(s) < s.len(),
        last_colon(s) >= 0 ==> s[last_colon(s)] == ':',
        last_colon(s) < 0 ==> colon_free(s),
    decreases s.len(),
{
    if s.len() > 0 && s.last() != ':' {
        let front = s.drop_last();
        lemma_last_colon_place(front);
        if last_colon(front) < 0 {
            assert forall|i: int| 0 <= i < s.len() implies #[trigger] s[i] != ':' by {
                if i < front.len() {
                    assert(front[i] != ':');
                }
            }
        }
    }
}

/// A port grows digit by digit: one digit is its own value, each further digit counts
/// the value before it tenfold, and the port is lost for good once it needs more than
/// sixteen bits. Nothing else spells a port but a plus sign in front.
pub proof fn port_grows_digit_by_digit(t: Seq<char>, c: char)
    requires
        all_digits(t),
    ensures
        port_value(Seq::empty()) is None,
        !is_digit(c) ==> port_value(t.push(c)) is None || t.len() == 0,
        is_digit(c) && t.len() == 0 ==> port_value(t.push(c)) == Some((c as u32 - '0' as u32) as u16),
        is_digit(c) && t.len() > 0 && port_value(t) is None ==> port_value(t.push(c)) is None,
        is_digit(c) && port_value(t) is Some ==> ({
            let next = port_value(t)->0 * 10 + (c as u32 - '0' as u32);
            port_value(t.push(c)) == if next <= 65535 {
                Some(next as u16)
            } else {
                None
            }
        }),
        t.len() > 0 ==> port_value(seq!['+'] + t) == port_value(t),
{
    let u = t.push(c);
    assert(u.drop_last() =~= t);
    if t.len() > 0 {
        assert(is_digit(t[0]));
        assert(u[0] == t[0]);
        assert((seq!['+'] + t).skip(1) =~= t);
    }
    if is_digit(c) {
        assert forall|i: int| 0 <= i < u.len() implies is_digit(#[trigger] u[i]) by {
            if i < t.len() {
                assert(is_digit(t[i]));
            }
        }
        assert(decimal_value(u) == decimal_value(t) * 10 + (c as u32 - '0' as u32) as nat);
        if t.len() == 0 {
            assert(t =~= Seq::empty());
            assert(decimal_value(t) == 0);
        }
    } else if t.len() > 0 {
        assert(!is_digit(u[t.len() as int]));
    }
}

/// A digit is one of the ten characters from zero to nine.
pub proof fn digits_are_zero_to_nine(c: char)
    ensures
        is_digit(c) <==> 48 <= c as u32 <= 57,
{
}

/// A text with anything but digits after an optional plus sign is no port.
pub proof fn other_characters_spell_no_port(t: Seq<char>, i: int)
    requires
        0 <= i < t.len(),
        !is_digit(t[i]),
        i > 0 || t[0] != '+',
    ensures
        port_value(t) is None,
{
    if t[0] == '+' {
        assert(t.skip(1)[i - 1] == t[i]);
    }
}

/// A written destination is the host, a colon and the digits of the port, without zeros
/// in front, from which the port is read back.
pub proof fn written_dest_is_host_colon_digits(host: Seq<char>, port: u16)
    ensures
        ({
            let s = dest_text(host, port as nat);
            let digits = s.skip(host.len() as int + 1);
            &&& s.len() > host.len() + 1
            &&& s.take(host.len() as int) == host
            &&& s[host.len() as int] == ':'
            &&& all_digits(digits)
            &&& port_value(digits) == Some(port)
            &&& port > 0 ==> digits[0] != '0'
            &&& port == 0 ==> digits.len() == 1
        }),
{
    let s = dest_text(host, port as nat);
    let digits = decimal(port as nat);
    decimal_port_is_read_back(port as nat);
    lemma_decimal(port as nat);
    lemma_no_leading_zero(port as nat);
    assert(s.skip(host.len() as int + 1) =~= digits);
    assert(s.take(host.len() as int) =~= host);
}

proof fn lemma_no_leading_zero(n: nat)
    ensures
        decimal(n).len() > 0,
        n > 0 ==> decimal(n)[0] != '0',
        n < 10 ==> decimal(n).len() == 1,
    decreases n,
{
    if n >= 10 {
        lemma_no_leading_zero(n / 10);
    } else {
        assert(decimal(n)[0] as u32 == '0' as u32 + n);
    }
}

} // verus!
