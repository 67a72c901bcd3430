//! Signup credential validation. A username is 2 to 17 characters, each a
//! letter, digit, underscore or hyphen; a password is 2 to 33 characters,
//! none of them a line break. Validation depends on the text alone, never
//! on stored state.

use vstd::prelude::*;
use vstd::string::StrSliceExecFns;

verus! {

/// A character a username may contain: a letter, a digit, an underscore
/// or a hyphen.
pub open spec fn is_username_char(c: char) -> bool {
    let u = c as u32;
    ('A' as u32 <= u && u <= 'Z' as u32) || ('a' as u32 <= u && u <= 'z' as u32) || ('0' as u32
        <= u && u <= '9' as u32) || c == '_' || c == '-'
}

/// A well-formed username: 2 to 17 username characters.
pub open spec fn valid_username(s: Seq<char>) -> bool {
    2 <= s.len() && s.len() <= 17 && (forall|i: int|
        0 <= i < s.len() ==> is_username_char(#[trigger] s[i]))
}

/// A well-formed password: 2 to 33 characters, none a line break.
pub open spec fn valid_password(s: Seq<char>) -> bool {
    2 <= s.len() && s.len() <= 33 && (forall|i: int| 0 <= i < s.len() ==> #[trigger] s[i] != '\n')
}

/// Whether a submitted username is acceptable for signup.
pub fn validate_username(name: String) -> (b: bool)
    ensures
        b == valid_username(name@),
{
    let st = name.as_str();
    let n = st.unicode_len();
    if n < 2 || n > 17 {
        return false;
    }
    let mut i: usize = 0;
    while i < n
        invariant
            n == st@.len(),
            st@ == name@,
            i <= n,
            forall|j: int| 0 <= j < i ==> is_username_char(#[trigger] st@[j]),
        decreases n - i,
    {
        let c = st.get_char(i);
        let u = c as u32;
        let ok = ('A' as u32 <= u && u <= 'Z' as u32) || ('a' as u32 <= u && u <= 'z' as u32) || (
        '0' as u32 <= u && u <= '9' as u32) || c == '_' || c == '-';
        if !ok {
            return false;
        }
        i = i + 1;
    }
    true
}

/// Whether a submitted password is acceptable for signup.
pub fn validate_password(pass: String) -> (b: bool)
    ensures
        b == valid_password(pass@),
{
    let st = pass.as_str();
    let n = st.unicode_len();
    if n < 2 || n > 33 {
        return false;
    }
    let mut i: usize = 0;
    while i < n
        invariant
            n == st@.len(),
            st@ == pass@,
            i <= n,
            forall|j: int| 0 <= j < i ==> #[trigger] st@[j] != '\n',
        decreases n - i,
    {
        let c = st.get_char(i);
        if c == '\n' {
            return false;
        }
        i = i + 1;
    }
    true
}

/// A decimal digit.
pub open spec fn is_digit(c: char) -> bool {
    '0' as u32 <= c as u32 && c as u32 <= '9' as u32
}

/// Every character a decimal digit.
pub open spec fn all_digits(s: Seq<char>) -> bool {
    forall|i: int| 0 <= i < s.len() ==> is_digit(#[trigger] s[i])
}

/// A five-digit text that reads as a number up to 65535, in exactly the
/// digit shapes the port pattern spells out.
pub open spec fn five_digit_port_ok(s: Seq<char>) -> bool
    recommends
        s.len() == 5,
        all_digits(s),
{
    ||| ('1' as u32 <= s[0] as u32 && s[0] as u32 <= '5' as u32)
    ||| (s[0] == '6' && ((s[1] as u32) < ('5' as u32) || (s[1] == '5' && ((s[2] as u32) < (
    '5' as u32) || (s[2] == '5' && ((s[3] as u32) < ('3' as u32) || (s[3] == '3' && (s[4] as u32)
        <= ('5' as u32))))))))
}

/// The texts the port check accepts: the empty text, one to four digits,
/// five characters that are all between zero and five, or five digits
/// reading as a number up to 65535.
pub open spec fn valid_port_text(s: Seq<char>) -> bool {
    ||| s.len() == 0
    ||| (1 <= s.len() <= 4 && all_digits(s))
    ||| (s.len() == 5 && (forall|i: int|
        0 <= i < s.len() ==> '0' as u32 <= #[trigger] s[i] as u32 && s[i] as u32 <= '5' as u32))
    ||| (s.len() == 5 && all_digits(s) && five_digit_port_ok(s))
}

/// Whether a configured port value is acceptable.
#[verifier::loop_isolation(false)]
pub fn validate_port(port: String) -> (b: bool)
    ensures
        b == valid_port_text(port@),
{
    let st = port.as_str();
    let n = st.unicode_len();
    if n == 0 {
        return true;
    }
    if n > 5 {
        return false;
    }
    let mut digits = true;
    let mut low = true;
    let mut i: usize = 0;
    while i < n
        invariant
            i <= n,
            digits == (forall|j: int| 0 <= j < i ==> is_digit(#[trigger] st@[j])),
            low == (forall|j: int|
                0 <= j < i ==> '0' as u32 <= #[trigger] st@[j] as u32 && st@[j] as u32 <= '5'
                    as u32),
        decreases n - i,
    {
        let c = st.get_char(i);
        let u = c as u32;
        if !('0' as u32 <= u && u <= '9' as u32) {
            digits = false;
        }
        if !('0' as u32 <= u && u <= '5' as u32) {
            low = false;
        }
        i = i + 1;
    }
    if n <= 4 {
        return digits;
    }
    if low {
        return true;
    }
    if !digits {
        return false;
    }
    let c0 = st.get_char(0);
    let c1 = st.get_char(1);
    let c2 = st.get_char(2);
    let c3 = st.get_char(3);
    let c4 = st.get_char(4);
    if '1' as u32 <= c0 as u32 && c0 as u32 <= '5' as u32 {
        return true;
    }
    if c0 != '6' {
        return false;
    }
    if (c1 as u32) < '5' as u32 {
        return true;
    }
    if c1 != '5' {
        return false;
    }
    if (c2 as u32) < '5' as u32 {
        return true;
    }
    if c2 != '5' {
        return false;
    }
    if (c3 as u32) < '3' as u32 {
        return true;
    }
    if c3 != '3' {
        return false;
    }
    c4 as u32 <= '5' as u32
}

/// One octet of a dotted-quad address, as the address pattern spells it
/// out: one to three digits, where a three-digit form reads at most 255.
pub open spec fn is_octet_text(o: Seq<char>) -> bool {
    &&& 1 <= o.len() <= 3
    &&& all_digits(o)
    &&& (o.len() < 3 || o[0] == '0' || o[0] == '1' || (o[0] == '2' && ((o[1] as u32) <= (
    '4' as u32) || (o[1] == '5' && (o[2] as u32) <= ('5' as u32)))))
}

/// A dotted quad stands at the front of the text: four octets of the
/// given lengths, separated by dots, with anything after the fourth.
pub open spec fn quad_at(s: Seq<char>, l1: int, l2: int, l3: int, l4: int) -> bool {
    &&& 1 <= l1 <= 3
    &&& 1 <= l2 <= 3
    &&& 1 <= l3 <= 3
    &&& 1 <= l4 <= 3
    &&& l1 + l2 + l3 + l4 + 3 <= s.len()
    &&& is_octet_text(s.subrange(0, l1))
    &&& s[l1] == '.'
    &&& is_octet_text(s.subrange(l1 + 1, l1 + 1 + l2))
    &&& s[l1 + 1 + l2] == '.'
    &&& is_octet_text(s.subrange(l1 + l2 + 2, l1 + l2 + 2 + l3))
    &&& s[l1 + l2 + l3 + 2] == '.'
    &&& is_octet_text(s.subrange(l1 + l2 + l3 + 3, l1 + l2 + l3 + 3 + l4))
}

/// The text begins with a dotted-quad address.
pub open spec fn starts_with_ipv4(s: Seq<char>) -> bool {
    exists|l1: int, l2: int, l3: int, l4: int| #[trigger] quad_at(s, l1, l2, l3, l4)
}

/// The text ends with the word localhost.
pub open spec fn ends_with_localhost(s: Seq<char>) -> bool {
    s.len() >= 9 && s.subrange(s.len() - 9, s.len() as int) == "localhost"@
}

/// What the address check accepts: a text beginning with a dotted-quad
/// address, whatever follows it, or a text ending with the word
/// localhost, whatever precedes it. Only the front of the first
/// alternative and the back of the second are anchored.
pub open spec fn valid_ip_text(s: Seq<char>) -> bool {
    starts_with_ipv4(s) || ends_with_localhost(s)
}

/// The length of the digit run at `from`, capped at four: the largest
/// count of consecutive digits that could begin an octet there.
#[verifier::loop_isolation(false)]
fn digit_run(st: &str, from: usize, n: usize) -> (r: usize)
    requires
        n == st@.len(),
        from <= n,
    ensures
        from + r <= n,
        r <= 4,
        forall|j: int| from <= j < from + r ==> is_digit(#[trigger] st@[j]),
        r < 4 ==> (from + r == n || !is_digit(st@[from + r as int])),
{
    let mut r: usize = 0;
    while r < 4 && from + r < n
        invariant
            r <= 4,
            from + r <= n,
            forall|j: int| from <= j < from + r ==> is_digit(#[trigger] st@[j]),
        decreases 4 - r,
    {
        let c = st.get_char(from + r);
        let u = c as u32;
        if !('0' as u32 <= u && u <= '9' as u32) {
            return r;
        }
        r = r + 1;
    }
    r
}

/// Whether the `r` digits at `from` read as an octet.
fn octet_value_ok(st: &str, from: usize, r: usize, n: usize) -> (b: bool)
    requires
        n == st@.len(),
        from + r <= n,
        1 <= r <= 3,
        forall|j: int| from <= j < from + r ==> is_digit(#[trigger] st@[j]),
    ensures
        b == is_octet_text(st@.subrange(from as int, from as int + r as int)),
{
    proof {
        assert forall|j: int|
            0 <= j < r implies is_digit(
            #[trigger] st@.subrange(from as int, from as int + r as int)[j],
        ) by {
            assert(st@.subrange(from as int, from as int + r as int)[j] == st@[from + j]);
        }
    }
    if r < 3 {
        return true;
    }
    let c0 = st.get_char(from);
    let c1 = st.get_char(from + 1);
    let c2 = st.get_char(from + 2);
    c0 == '0' || c0 == '1' || (c0 == '2' && ((c1 as u32) <= ('4' as u32) || (c1 == '5' && (
    c2 as u32) <= ('5' as u32))))
}

/// A candidate octet followed by a dot must cover exactly the digit run
/// at its position: a shorter one would put a digit where its dot is,
/// and a longer one would run past the first non-digit.
proof fn lemma_octet_run_forced(s: Seq<char>, from: int, l: int, r: int)
    requires
        0 <= from,
        from + r <= s.len(),
        0 <= r <= 4,
        forall|j: int| from <= j < from + r ==> is_digit(#[trigger] s[j]),
        r < 4 ==> (from + r == s.len() || !is_digit(s[from + r])),
        1 <= l <= 3,
        from + l < s.len(),
        all_digits(s.subrange(from, from + l)),
        s[from + l] == '.',
    ensures
        l == r,
{
    if l < r {
        assert(is_digit(s[from + l]));
        assert(!is_digit('.'));
        assert(false);
    }
    if l > r {
        assert(r < 4);
        assert(s.subrange(from, from + l)[r] == s[from + r]);
        assert(is_digit(s[from + r]));
        assert(from + r < s.len());
        assert(false);
    }
}

/// Whether a configured address is acceptable: it begins with a
/// dotted-quad address or ends with the word localhost.
#[verifier::loop_isolation(false)]
#[verifier::rlimit(100)]
pub fn validate_ip(ip: String) -> (b: bool)
    ensures
        b == valid_ip_text(ip@),
{
    let st = ip.as_str();
    let n = st.unicode_len();

    // the localhost suffix
    if n >= 9 {
        let base = n - 9;
        proof {
            reveal_strlit("localhost");
        }
        let matched = st.get_char(base) == 'l' && st.get_char(base + 1) == 'o' && st.get_char(
            base + 2,
        ) == 'c' && st.get_char(base + 3) == 'a' && st.get_char(base + 4) == 'l' && st.get_char(
            base + 5,
        ) == 'h' && st.get_char(base + 6) == 'o' && st.get_char(base + 7) == 's' && st.get_char(
            base + 8,
        ) == 't';
        proof {
            assert forall|j: int|
                0 <= j < 9 implies #[trigger] st@.subrange(base as int, n as int)[j] == st@[base
                + j] by {}
        }
        if matched {
            proof {
                assert(st@.subrange(base as int, n as int) =~= "localhost"@);
            }
            return true;
        }
        proof {
            assert(st@.subrange(base as int, n as int) != "localhost"@) by {
                if st@.subrange(base as int, n as int) == "localhost"@ {
                    assert(st@.subrange(base as int, n as int)[0] == st@[base + 0]);
                    assert(st@.subrange(base as int, n as int)[1] == st@[base + 1]);
                    assert(st@.subrange(base as int, n as int)[2] == st@[base + 2]);
                    assert(st@.subrange(base as int, n as int)[3] == st@[base + 3]);
                    assert(st@.subrange(base as int, n as int)[4] == st@[base + 4]);
                    assert(st@.subrange(base as int, n as int)[5] == st@[base + 5]);
                    assert(st@.subrange(base as int, n as int)[6] == st@[base + 6]);
                    assert(st@.subrange(base as int, n as int)[7] == st@[base + 7]);
                    assert(st@.subrange(base as int, n as int)[8] == st@[base + 8]);
                    assert(false);
                }
            }
        }
    }
    assert(!ends_with_localhost(st@));

    // the dotted-quad prefix, octet by octet; each octet before a dot is
    // pinned to the digit run at its position
    let ghost s = st@;
    let r1 = digit_run(st, 0, n);
    let ok1 = 1 <= r1 && r1 <= 3 && octet_value_ok(st, 0, r1, n) && r1 < n && st.get_char(r1)
        == '.';
    if !ok1 {
        proof {
            assert forall|l1: int, l2: int, l3: int, l4: int| !quad_at(s, l1, l2, l3, l4) by {
                if quad_at(s, l1, l2, l3, l4) {
                    lemma_octet_run_forced(s, 0, l1, r1 as int);
                    assert(false);
                }
            }
        }
        return false;
    }
    let f2 = r1 + 1;
    let r2 = digit_run(st, f2, n);
    let ok2 = 1 <= r2 && r2 <= 3 && octet_value_ok(st, f2, r2, n) && f2 + r2 < n && st.get_char(
        f2 + r2,
    ) == '.';
    if !ok2 {
        proof {
            assert forall|l1: int, l2: int, l3: int, l4: int| !quad_at(s, l1, l2, l3, l4) by {
                if quad_at(s, l1, l2, l3, l4) {
                    lemma_octet_run_forced(s, 0, l1, r1 as int);
                    assert forall|j: int|
                        0 <= j < l2 implies is_digit(#[trigger] s[l1 + 1 + j]) by {
                        assert(s.subrange(l1 + 1, l1 + 1 + l2)[j] == s[l1 + 1 + j]);
                    }
                    assert(all_digits(s.subrange(f2 as int, f2 as int + l2))) by {
                        assert forall|j: int|
                            0 <= j < l2 implies is_digit(
                            #[trigger] s.subrange(f2 as int, f2 as int + l2)[j],
                        ) by {
                            assert(s.subrange(f2 as int, f2 as int + l2)[j] == s[f2 + j]);
                        }
                    }
                    lemma_octet_run_forced(s, f2 as int, l2, r2 as int);
                    assert(s.subrange(f2 as int, f2 as int + r2 as int) =~= s.subrange(
                        l1 + 1,
                        l1 + 1 + l2,
                    ));
                    assert(false);
                }
            }
        }
        return false;
    }
    let f3 = f2 + r2 + 1;
    let r3 = digit_run(st, f3, n);
    let ok3 = 1 <= r3 && r3 <= 3 && octet_value_ok(st, f3, r3, n) && f3 + r3 < n && st.get_char(
        f3 + r3,
    ) == '.';
    if !ok3 {
        proof {
            assert forall|l1: int, l2: int, l3: int, l4: int| !quad_at(s, l1, l2, l3, l4) by {
                if quad_at(s, l1, l2, l3, l4) {
                    lemma_octet_run_forced(s, 0, l1, r1 as int);
                    assert(all_digits(s.subrange(f2 as int, f2 as int + l2))) by {
                        assert forall|j: int|
                            0 <= j < l2 implies is_digit(
                            #[trigger] s.subrange(f2 as int, f2 as int + l2)[j],
                        ) by {
                            assert(s.subrange(f2 as int, f2 as int + l2)[j] == s[f2 + j]);
                            assert(s.subrange(l1 + 1, l1 + 1 + l2)[j] == s[l1 + 1 + j]);
                        }
                    }
                    lemma_octet_run_forced(s, f2 as int, l2, r2 as int);
                    assert(all_digits(s.subrange(f3 as int, f3 as int + l3))) by {
                        assert forall|j: int|
                            0 <= j < l3 implies is_digit(
                            #[trigger] s.subrange(f3 as int, f3 as int + l3)[j],
                        ) by {
                            assert(s.subrange(f3 as int, f3 as int + l3)[j] == s[f3 + j]);
                            assert(s.subrange(l1 + l2 + 2, l1 + l2 + 2 + l3)[j] == s[l1 + l2 + 2
                                + j]);
                        }
                    }
                    lemma_octet_run_forced(s, f3 as int, l3, r3 as int);
                    assert(s.subrange(f3 as int, f3 as int + r3 as int) =~= s.subrange(
                        l1 + l2 + 2,
                        l1 + l2 + 2 + l3,
                    ));
                    assert(false);
                }
            }
        }
        return false;
    }
    let f4 = f3 + r3 + 1;
    let ok4 = f4 < n && {
        let c = st.get_char(f4);
        '0' as u32 <= c as u32 && c as u32 <= '9' as u32
    };
    if !ok4 {
        proof {
            assert forall|l1: int, l2: int, l3: int, l4: int| !quad_at(s, l1, l2, l3, l4) by {
                if quad_at(s, l1, l2, l3, l4) {
                    lemma_octet_run_forced(s, 0, l1, r1 as int);
                    assert(all_digits(s.subrange(f2 as int, f2 as int + l2))) by {
                        assert forall|j: int|
                            0 <= j < l2 implies is_digit(
                            #[trigger] s.subrange(f2 as int, f2 as int + l2)[j],
                        ) by {
                            assert(s.subrange(f2 as int, f2 as int + l2)[j] == s[f2 + j]);
                            assert(s.subrange(l1 + 1, l1 + 1 + l2)[j] == s[l1 + 1 + j]);
                        }
                    }
                    lemma_octet_run_forced(s, f2 as int, l2, r2 as int);
                    assert(all_digits(s.subrange(f3 as int, f3 as int + l3))) by {
                        assert forall|j: int|
                            0 <= j < l3 implies is_digit(
                            #[trigger] s.subrange(f3 as int, f3 as int + l3)[j],
                        ) by {
                            assert(s.subrange(f3 as int, f3 as int + l3)[j] == s[f3 + j]);
                            assert(s.subrange(l1 + l2 + 2, l1 + l2 + 2 + l3)[j] == s[l1 + l2 + 2
                                + j]);
                        }
                    }
                    lemma_octet_run_forced(s, f3 as int, l3, r3 as int);
                    assert(s.subrange(l1 + l2 + l3 + 3, l1 + l2 + l3 + 3 + l4)[0] == s[f4 as int]);
                    assert(is_digit(s[f4 as int]));
                    assert(f4 < n);
                    assert(false);
                }
            }
        }
        return false;
    }
    proof {
        assert(is_octet_text(s.subrange(f4 as int, f4 as int + 1))) by {
            assert(s.subrange(f4 as int, f4 as int + 1)[0] == s[f4 as int]);
            assert(s.subrange(f4 as int, f4 as int + 1).len() == 1);
        }
        assert(quad_at(s, r1 as int, r2 as int, r3 as int, 1));
    }
    true
}

} // verus!
