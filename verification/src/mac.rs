//! Hardware (MAC) addresses and their textual forms.
//!
//! A hardware address is six octets. The parser accepts either six
//! colon-separated hexadecimal segments or one contiguous run of twelve
//! hexadecimal digits, case-insensitively, and classifies every rejection
//! as [`ErrKind::TooShort`], [`ErrKind::TooLong`] or [`ErrKind::InvalidFormat`].

use vstd::prelude::*;

use crate::err::{ErrKind, ROLErr};

verus! {

/// A validated hardware address: exactly six octets, in wire order.
#[derive(Clone, Debug, PartialEq, Eq)]
pub struct HardwareAddress {
    pub octets: Vec<u8>,
}

impl HardwareAddress {
    /// The invariant every constructed address satisfies.
    pub open spec fn wf(self) -> bool {
        self.octets@.len() == 6
    }
}

impl View for HardwareAddress {
    type V = Seq<u8>;

    open spec fn view(&self) -> Seq<u8> {
        self.octets@
    }
}

/// Whether `c` is a hexadecimal digit, upper or lower case.
pub open spec fn is_hex_digit(c: char) -> bool {
    (('0' as u32) <= (c as u32) && (c as u32) <= ('9' as u32))
    || (('a' as u32) <= (c as u32) && (c as u32) <= ('f' as u32))
    || (('A' as u32) <= (c as u32) && (c as u32) <= ('F' as u32))
}

/// The numeric value of a hexadecimal digit.
pub open spec fn hex_digit_value(c: char) -> u8
    recommends
        is_hex_digit(c),
{
    if ('0' as u32) <= (c as u32) && (c as u32) <= ('9' as u32) {
        ((c as u32) - ('0' as u32)) as u8
    } else if ('a' as u32) <= (c as u32) && (c as u32) <= ('f' as u32) {
        ((c as u32) - ('a' as u32) + 10) as u8
    } else {
        ((c as u32) - ('A' as u32) + 10) as u8
    }
}

/// The value of a run of hexadecimal digits, most significant first.
pub open spec fn hex_value(s: Seq<char>) -> nat
    recommends
        all_hex(s),
    decreases s.len(),
{
    if s.len() == 0 {
        0
    } else {
        (hex_value(s.drop_last()) * 16 + hex_digit_value(s.last())) as nat
    }
}

/// Whether every character of `s` is a hexadecimal digit.
pub open spec fn all_hex(s: Seq<char>) -> bool {
    forall|i: int| 0 <= i < s.len() ==> is_hex_digit(#[trigger] s[i])
}

/// A valid address segment: at least one character, all hexadecimal, with
/// a value that fits one octet.
pub open spec fn segment_ok(s: Seq<char>) -> bool {
    s.len() >= 1 && all_hex(s) && hex_value(s) <= 255
}

/// Whether `s` contains a colon, which selects the segmented form.
pub open spec fn has_colon(s: Seq<char>) -> bool {
    exists|i: int| 0 <= i < s.len() && s[i] == ':'
}

/// Splitting on colons, as string splitting does: the result always has
/// one more segment than `s` has colons, and empty segments are kept.
pub open spec fn split_colon(s: Seq<char>) -> Seq<Seq<char>>
    decreases s.len(),
{
    if s.len() == 0 {
        seq![Seq::<char>::empty()]
    } else {
        let rest = split_colon(s.drop_last());
        if s.last() == ':' {
            rest.push(Seq::<char>::empty())
        } else {
            rest.update(rest.len() - 1, rest.last().push(s.last()))
        }
    }
}

/// Splitting never yields an empty list of segments.
pub proof fn lemma_split_colon_nonempty(s: Seq<char>)
    ensures
        split_colon(s).len() >= 1,
    decreases s.len(),
{
    if s.len() > 0 {
        lemma_split_colon_nonempty(s.drop_last());
    }
}

/// What parsing an address string yields, over the string's characters.
///
/// A string with a colon is split on colons and must give exactly six
/// segments, each a nonempty run of hexadecimal digits whose value fits an
/// octet. A string without one is read as consecutive two-digit segments,
/// of which there must likewise be exactly six; an odd-length run leaves
/// its last segment a single digit, which is rejected as malformed. The
/// segment count is judged before the segments' contents.
pub open spec fn parse_spec(s: Seq<char>) -> Result<Seq<u8>, ErrKind> {
    if has_colon(s) {
        let segs = split_colon(s);
        if segs.len() < 6 {
            Err(ErrKind::TooShort)
        } else if segs.len() > 6 {
            Err(ErrKind::TooLong)
        } else if forall|i: int| 0 <= i < 6 ==> segment_ok(#[trigger] segs[i]) {
            Ok(Seq::new(6, |i: int| hex_value(segs[i]) as u8))
        } else {
            Err(ErrKind::InvalidFormat)
        }
    } else {
        let n = (s.len() + 1) / 2;
        if n < 6 {
            Err(ErrKind::TooShort)
        } else if n > 6 {
            Err(ErrKind::TooLong)
        } else if s.len() == 12 && all_hex(s) {
            Ok(Seq::new(6, |i: int| (hex_digit_value(s[2 * i]) * 16 + hex_digit_value(s[2 * i + 1])) as u8))
        } else {
            Err(ErrKind::InvalidFormat)
        }
    }
}

/// Joining segments with colons, the inverse of `split_colon`.
pub open spec fn join_colon(segs: Seq<Seq<char>>) -> Seq<char>
    decreases segs.len(),
{
    if segs.len() == 0 {
        Seq::empty()
    } else if segs.len() == 1 {
        segs[0]
    } else {
        join_colon(segs.drop_last()) + seq![':'] + segs.last()
    }
}

/// A colon-free string splits into itself alone.
proof fn lemma_split_colon_free(s: Seq<char>)
    requires
        !has_colon(s),
    ensures
        split_colon(s) == seq![s],
    decreases s.len(),
{
    if s.len() == 0 {
        assert(split_colon(s) =~~= seq![s]);
    } else {
        assert(s[s.len() - 1] != ':');
        assert(forall|i: int| 0 <= i < s.drop_last().len() ==> s.drop_last()[i] == s[i]);
        lemma_split_colon_free(s.drop_last());
        assert(s.drop_last().push(s.last()) =~= s);
        assert(split_colon(s) =~~= seq![s]);
    }
}

/// Appending a colon and a colon-free tail appends one segment.
proof fn lemma_split_colon_append(a: Seq<char>, b: Seq<char>)
    requires
        !has_colon(b),
    ensures
        split_colon(a + seq![':'] + b) == split_colon(a).push(b),
    decreases b.len(),
{
    lemma_split_colon_nonempty(a);
    if b.len() == 0 {
        assert(a + seq![':'] + b =~= a.push(':'));
        assert(a.push(':').drop_last() =~= a);
        assert(b =~= Seq::<char>::empty());
        assert(split_colon(a + seq![':'] + b) =~~= split_colon(a).push(b));
    } else {
        let b0 = b.drop_last();
        assert(forall|i: int| 0 <= i < b0.len() ==> b0[i] == b[i]);
        lemma_split_colon_append(a, b0);
        let s = a + seq![':'] + b;
        assert(s.drop_last() =~= a + seq![':'] + b0);
        assert(s.last() == b.last());
        assert(b[b.len() - 1] != ':');
        assert(b0.push(b.last()) =~= b);
        assert(split_colon(s) =~~= split_colon(a).push(b));
    }
}

/// Splitting undoes joining, for colon-free segments.
pub proof fn lemma_split_join(segs: Seq<Seq<char>>)
    requires
        segs.len() >= 1,
        forall|i: int| 0 <= i < segs.len() ==> !has_colon(#[trigger] segs[i]),
    ensures
        split_colon(join_colon(segs)) == segs,
    decreases segs.len(),
{
    if segs.len() == 1 {
        lemma_split_colon_free(segs[0]);
        assert(seq![segs[0]] =~= segs);
    } else {
        assert(forall|i: int| 0 <= i < segs.drop_last().len()
            ==> segs.drop_last()[i] == segs[i]);
        lemma_split_join(segs.drop_last());
        lemma_split_colon_append(join_colon(segs.drop_last()), segs.last());
        assert(segs.drop_last().push(segs.last()) =~= segs);
    }
}

/// A join of two or more segments contains a colon.
pub proof fn lemma_join_has_colon(segs: Seq<Seq<char>>)
    requires
        segs.len() >= 2,
    ensures
        has_colon(join_colon(segs)),
{
    let a = join_colon(segs.drop_last());
    let j = join_colon(segs);
    assert(j == a + seq![':'] + segs.last());
    assert(j[a.len() as int] == ':');
}

/// A hexadecimal digit is worth at most fifteen.
proof fn lemma_hex_digit_value_bound(c: char)
    requires
        is_hex_digit(c),
    ensures
        hex_digit_value(c) <= 15,
{
}

/// The value of a two-digit run.
proof fn lemma_hex_value_pair(s: Seq<char>)
    requires
        s.len() == 2,
    ensures
        hex_value(s) == hex_digit_value(s[0]) * 16 + hex_digit_value(s[1]),
{
    assert(s.drop_last().drop_last() =~= Seq::<char>::empty());
    assert(s.drop_last().last() == s[0]);
    assert(s.last() == s[1]);
    assert(hex_value(Seq::<char>::empty()) == 0);
    assert(hex_value(s.drop_last()) == hex_digit_value(s[0]));
}

/// Six colon-joined groups of two hexadecimal digits parse successfully,
/// and yield the groups' values as octets in left-to-right order.
pub proof fn lemma_parse_colon_groups(segs: Seq<Seq<char>>)
    requires
        segs.len() == 6,
        forall|i: int| 0 <= i < 6 ==> (#[trigger] segs[i]).len() == 2,
        forall|i: int| 0 <= i < 6 ==> all_hex(#[trigger] segs[i]),
    ensures
        parse_spec(join_colon(segs)) == Ok::<Seq<u8>, ErrKind>(
            Seq::new(6, |i: int| (hex_digit_value(segs[i][0]) * 16
                + hex_digit_value(segs[i][1])) as u8),
        ),
{
    assert forall|i: int| 0 <= i < 6 implies !has_colon(#[trigger] segs[i]) by {
        if has_colon(segs[i]) {
            let k = choose|k: int| 0 <= k < segs[i].len() && segs[i][k] == ':';
            assert(is_hex_digit(segs[i][k]));
            assert(false);
        }
    }
    lemma_split_join(segs);
    lemma_join_has_colon(segs);
    assert forall|i: int| 0 <= i < 6 implies segment_ok(#[trigger] segs[i])
        && hex_value(segs[i]) == hex_digit_value(segs[i][0]) * 16 + hex_digit_value(segs[i][1]) by {
        lemma_hex_value_pair(segs[i]);
        lemma_hex_digit_value_bound(segs[i][0]);
        lemma_hex_digit_value_bound(segs[i][1]);
    }
    assert(Seq::new(6, |i: int| hex_value(split_colon(join_colon(segs))[i]) as u8)
        =~= Seq::new(6, |i: int| (hex_digit_value(segs[i][0]) * 16
            + hex_digit_value(segs[i][1])) as u8));
}

/// A contiguous run of twelve hexadecimal digits parses to exactly the
/// bytes of the colon-delimited form of the same digits.
pub proof fn lemma_contiguous_matches_colon(s: Seq<char>)
    requires
        s.len() == 12,
        all_hex(s),
    ensures
        ({
            let segs = Seq::new(6, |i: int| seq![s[2 * i], s[2 * i + 1]]);
            &&& parse_spec(s) is Ok
            &&& parse_spec(join_colon(segs)) == parse_spec(s)
        }),
{
    assert(!has_colon(s)) by {
        if has_colon(s) {
            let k = choose|k: int| 0 <= k < s.len() && s[k] == ':';
            assert(is_hex_digit(s[k]));
            assert(false);
        }
    }
    let segs = Seq::new(6, |i: int| seq![s[2 * i], s[2 * i + 1]]);
    assert forall|i: int| 0 <= i < 6 implies (#[trigger] segs[i]).len() == 2 && all_hex(segs[i]) by {
        assert(segs[i][0] == s[2 * i]);
        assert(segs[i][1] == s[2 * i + 1]);
        assert(forall|k: int| 0 <= k < 2 ==> is_hex_digit(#[trigger] segs[i][k]));
    }
    lemma_parse_colon_groups(segs);
    assert(parse_spec(s) == Ok::<Seq<u8>, ErrKind>(
        Seq::new(6, |i: int| (hex_digit_value(s[2 * i]) * 16 + hex_digit_value(s[2 * i + 1])) as u8),
    ));
    assert(Seq::new(6, |i: int| (hex_digit_value(segs[i][0]) * 16
        + hex_digit_value(segs[i][1])) as u8)
        =~= Seq::new(6, |i: int| (hex_digit_value(s[2 * i]) * 16
            + hex_digit_value(s[2 * i + 1])) as u8));
}

/// Two characters that differ at most by letter case.
pub open spec fn ci_equiv(a: char, b: char) -> bool {
    a == b
    || ((a as u32) + 32 == (b as u32) && ('A' as u32) <= (a as u32) && (a as u32) <= ('Z' as u32))
    || ((b as u32) + 32 == (a as u32) && ('A' as u32) <= (b as u32) && (b as u32) <= ('Z' as u32))
}

/// Two strings that differ at most by letter case, character by character.
pub open spec fn ci_equiv_seq(s: Seq<char>, t: Seq<char>) -> bool {
    s.len() == t.len() && forall|i: int| 0 <= i < s.len() ==> ci_equiv(#[trigger] s[i], t[i])
}

/// Case never changes what a character means to the parser.
proof fn lemma_ci_char(a: char, b: char)
    requires
        ci_equiv(a, b),
    ensures
        is_hex_digit(a) == is_hex_digit(b),
        is_hex_digit(a) ==> hex_digit_value(a) == hex_digit_value(b),
        (a == ':') == (b == ':'),
{
}

/// Case never changes a segment's validity or value.
proof fn lemma_ci_segment(s: Seq<char>, t: Seq<char>)
    requires
        ci_equiv_seq(s, t),
    ensures
        all_hex(s) == all_hex(t),
        all_hex(s) ==> hex_value(s) == hex_value(t),
        segment_ok(s) == segment_ok(t),
    decreases s.len(),
{
    assert forall|i: int| #![trigger s[i]] #![trigger t[i]]
        0 <= i < s.len() implies is_hex_digit(s[i]) == is_hex_digit(t[i]) by {
        lemma_ci_char(s[i], t[i]);
    }
    assert(all_hex(s) == all_hex(t));
    if s.len() > 0 {
        assert(forall|i: int| 0 <= i < s.drop_last().len()
            ==> ci_equiv(#[trigger] s.drop_last()[i], t.drop_last()[i]));
        lemma_ci_segment(s.drop_last(), t.drop_last());
        lemma_ci_char(s.last(), t.last());
    }
}

/// Splitting two case-equivalent strings gives case-equivalent segments.
proof fn lemma_ci_split(s: Seq<char>, t: Seq<char>)
    requires
        ci_equiv_seq(s, t),
    ensures
        split_colon(s).len() == split_colon(t).len(),
        forall|j: int| 0 <= j < split_colon(s).len()
            ==> ci_equiv_seq(#[trigger] split_colon(s)[j], split_colon(t)[j]),
    decreases s.len(),
{
    if s.len() == 0 {
    } else {
        assert(forall|i: int| 0 <= i < s.drop_last().len()
            ==> ci_equiv(#[trigger] s.drop_last()[i], t.drop_last()[i]));
        lemma_ci_split(s.drop_last(), t.drop_last());
        lemma_split_colon_nonempty(s.drop_last());
        lemma_ci_char(s.last(), t.last());
        let ss = split_colon(s.drop_last());
        let tt = split_colon(t.drop_last());
        if s.last() == ':' {
            assert(t.last() == ':');
        } else {
            assert(t.last() != ':');
            assert(ci_equiv_seq(ss.last().push(s.last()), tt.last().push(t.last()))) by {
                assert(forall|i: int| 0 <= i < ss.last().len()
                    ==> ss.last().push(s.last())[i] == #[trigger] ss.last()[i]);
                assert(forall|i: int| 0 <= i < tt.last().len()
                    ==> tt.last().push(t.last())[i] == #[trigger] tt.last()[i]);
            }
        }
    }
}

/// Parsing is case-insensitive: two address strings that differ only in
/// letter case parse to the same outcome, success or failure.
pub proof fn lemma_parse_case_insensitive(s: Seq<char>, t: Seq<char>)
    requires
        ci_equiv_seq(s, t),
    ensures
        parse_spec(s) == parse_spec(t),
{
    assert(has_colon(s) == has_colon(t)) by {
        if has_colon(s) {
            let k = choose|k: int| 0 <= k < s.len() && s[k] == ':';
            lemma_ci_char(s[k], t[k]);
        }
        if has_colon(t) {
            let k = choose|k: int| 0 <= k < t.len() && t[k] == ':';
            lemma_ci_char(s[k], t[k]);
        }
    }
    if has_colon(s) {
        lemma_ci_split(s, t);
        let ss = split_colon(s);
        let tt = split_colon(t);
        if ss.len() == 6 {
            if forall|i: int| 0 <= i < 6 ==> segment_ok(#[trigger] ss[i]) {
                assert forall|i: int| 0 <= i < 6 implies segment_ok(#[trigger] tt[i]) by {
                    lemma_ci_segment(ss[i], tt[i]);
                }
                assert forall|i: int| 0 <= i < 6 implies
                    hex_value(#[trigger] ss[i]) == hex_value(tt[i]) by {
                    lemma_ci_segment(ss[i], tt[i]);
                }
                assert(Seq::new(6, |i: int| hex_value(ss[i]) as u8)
                    =~= Seq::new(6, |i: int| hex_value(tt[i]) as u8));
            } else {
                let k = choose|k: int| 0 <= k < 6 && !segment_ok(#[trigger] ss[k]);
                lemma_ci_segment(ss[k], tt[k]);
                assert(!segment_ok(tt[k]));
            }
        }
    } else {
        lemma_ci_segment(s, t);
        if s.len() == 12 && all_hex(s) {
            assert forall|i: int| 0 <= i < 6 implies
                (hex_digit_value(#[trigger] s[2 * i]) * 16 + hex_digit_value(s[2 * i + 1])) as u8
                == (hex_digit_value(t[2 * i]) * 16 + hex_digit_value(t[2 * i + 1])) as u8 by {
                lemma_ci_char(s[2 * i], t[2 * i]);
                lemma_ci_char(s[2 * i + 1], t[2 * i + 1]);
            }
            assert(Seq::new(6, |i: int| (hex_digit_value(s[2 * i]) * 16
                + hex_digit_value(s[2 * i + 1])) as u8)
                =~= Seq::new(6, |i: int| (hex_digit_value(t[2 * i]) * 16
                    + hex_digit_value(t[2 * i + 1])) as u8));
        }
    }
}

/// Too few colon-separated segments are rejected as too short, too many
/// as too long, judged before the segments' contents.
pub proof fn lemma_segment_count_errors(s: Seq<char>)
    requires
        has_colon(s),
    ensures
        split_colon(s).len() < 6 ==> parse_spec(s) == Err::<Seq<u8>, ErrKind>(ErrKind::TooShort),
        split_colon(s).len() > 6 ==> parse_spec(s) == Err::<Seq<u8>, ErrKind>(ErrKind::TooLong),
{
}

/// Among six segments, any one that is not a valid hexadecimal octet makes
/// the whole address invalid.
pub proof fn lemma_bad_segment(s: Seq<char>, k: int)
    requires
        has_colon(s),
        split_colon(s).len() == 6,
        0 <= k < 6,
        !segment_ok(split_colon(s)[k]),
    ensures
        parse_spec(s) == Err::<Seq<u8>, ErrKind>(ErrKind::InvalidFormat),
{
}

/// Classifies one character as a hexadecimal digit.
fn hex_digit(c: char) -> (r: Option<u8>)
    ensures
        match r {
            Some(d) => is_hex_digit(c) && d == hex_digit_value(c) && d <= 15,
            None => !is_hex_digit(c),
        },
{
    let u = c as u32;
    if 48 <= u && u <= 57 {
        Some((u - 48) as u8)
    } else if 97 <= u && u <= 102 {
        Some((u - 87) as u8)
    } else if 65 <= u && u <= 70 {
        Some((u - 55) as u8)
    } else {
        None
    }
}

/// Parses a hardware-address string in either accepted form.
///
/// Returns the six octets in the order the string gives them, or the
/// classified rejection that `parse_spec` prescribes.
pub fn mac_from_str(host: &str) -> (r: Result<HardwareAddress, ROLErr>)
    ensures
        match r {
            Ok(h) => h.wf() && parse_spec(host@) == Ok::<Seq<u8>, ErrKind>(h@),
            Err(e) => parse_spec(host@) == Err::<Seq<u8>, ErrKind>(e.kind),
        },
{
    let n = host.unicode_len();

    // Decide which of the two accepted forms the string is in.
    let mut found_colon = false;
    let mut i: usize = 0;
    while i < n
        invariant
            i <= n,
            n == host@.len(),
            found_colon == has_colon(host@.subrange(0, i as int)),
        decreases n - i,
    {
        proof {
            assert(host@.subrange(0, i as int + 1) =~= host@.subrange(0, i as int).push(host@[i as int]));
        }
        if host.get_char(i) == ':' {
            found_colon = true;
            proof {
                assert(host@.subrange(0, i as int + 1)[i as int] == ':');
            }
        } else {
            proof {
                let pre = host@.subrange(0, i as int);
                let ext = host@.subrange(0, i as int + 1);
                assert(forall|j: int| 0 <= j < pre.len() ==> ext[j] == pre[j]);
                assert(has_colon(ext) ==> has_colon(pre) || ext[i as int] == ':');
            }
        }
        i += 1;
    }
    proof {
        assert(host@.subrange(0, n as int) =~= host@);
    }

    if found_colon {
        parse_colon_form(host)
    } else {
        parse_contiguous_form(host)
    }
}

/// Parses the colon-separated form: six nonempty hexadecimal segments.
fn parse_colon_form(host: &str) -> (r: Result<HardwareAddress, ROLErr>)
    requires
        has_colon(host@),
    ensures
        match r {
            Ok(h) => h.wf() && parse_spec(host@) == Ok::<Seq<u8>, ErrKind>(h@),
            Err(e) => parse_spec(host@) == Err::<Seq<u8>, ErrKind>(e.kind),
        },
{
    let n = host.unicode_len();
    // Octet values of the segments closed so far (a placeholder where one
    // was invalid), and whether all of them were valid.
    let mut vals: Vec<u8> = Vec::new();
    let mut closed_ok = true;
    // The still-open segment: its length, whether it is all hexadecimal
    // with a value that still fits an octet, and that value.
    let mut cur_len: usize = 0;
    let mut cur_ok = true;
    let mut cur_val: u16 = 0;

    let mut i: usize = 0;
    while i < n
        invariant
            i <= n,
            n == host@.len(),
            cur_len <= i,
            ({
                let segs = split_colon(host@.subrange(0, i as int));
                &&& segs.len() >= 1
                &&& vals@.len() == segs.len() - 1
                &&& closed_ok == (forall|j: int| 0 <= j < segs.len() - 1 ==> segment_ok(#[trigger] segs[j]))
                &&& (closed_ok ==> forall|j: int| 0 <= j < segs.len() - 1
                    ==> vals@[j] == hex_value(#[trigger] segs[j]) as u8)
                &&& cur_len == segs.last().len()
                &&& cur_ok == (all_hex(segs.last()) && hex_value(segs.last()) <= 255)
                &&& (cur_ok ==> cur_val == hex_value(segs.last()))
            }),
        decreases n - i,
    {
        let ghost pre = host@.subrange(0, i as int);
        let ghost segs = split_colon(pre);
        let ghost cur = segs.last();
        let c = host.get_char(i);
        proof {
            assert(host@.subrange(0, i as int + 1) =~= pre.push(host@[i as int]));
            assert(pre.push(c).drop_last() =~= pre);
            lemma_split_colon_nonempty(pre);
        }
        if c == ':' {
            proof {
                let stepped = segs.push(Seq::<char>::empty());
                assert(split_colon(pre.push(c)) =~= stepped);
                assert(forall|j: int| 0 <= j < segs.len() ==> stepped[j] == segs[j]);
                assert(stepped.last() =~= Seq::<char>::empty());
                assert(stepped[stepped.len() - 2] == cur);
            }
            if cur_ok && cur_len >= 1 {
                vals.push(cur_val as u8);
                proof {
                    assert(segment_ok(cur));
                }
            } else {
                vals.push(0);
                closed_ok = false;
                proof {
                    assert(!segment_ok(cur));
                }
            }
            cur_len = 0;
            cur_ok = true;
            cur_val = 0;
        } else {
            proof {
                let stepped = segs.update(segs.len() - 1, cur.push(c));
                assert(split_colon(pre.push(c)) =~= stepped);
                assert(stepped.last() == cur.push(c));
                assert(cur.push(c).drop_last() =~= cur);
                assert(hex_value(cur.push(c)) == hex_value(cur) * 16 + hex_digit_value(c));
                assert(forall|j: int| 0 <= j < stepped.len() - 1 ==> stepped[j] == segs[j]);
                assert(forall|j: int| 0 <= j < cur.len() ==> cur.push(c)[j] == cur[j]);
                assert(cur.push(c)[cur.len() as int] == c);
                assert(!all_hex(cur) ==> !all_hex(cur.push(c))) by {
                    if !all_hex(cur) {
                        let k = choose|k: int| 0 <= k < cur.len() && !is_hex_digit(cur[k]);
                        assert(cur.push(c)[k] == cur[k]);
                    }
                }
            }
            match hex_digit(c) {
                Some(d) => {
                    proof {
                        assert(all_hex(cur) ==> all_hex(cur.push(c))) by {
                            if all_hex(cur) {
                                assert(forall|k: int| 0 <= k < cur.push(c).len()
                                    ==> is_hex_digit(#[trigger] cur.push(c)[k]));
                            }
                        }
                    }
                    if cur_ok {
                        if cur_val < 16 {
                            cur_val = cur_val * 16 + d as u16;
                        } else {
                            // the value has outgrown an octet and can only grow
                            proof {
                                assert(hex_value(cur.push(c)) >= 16 * 16);
                            }
                            cur_ok = false;
                        }
                    } else {
                        proof {
                            if all_hex(cur) {
                                assert(hex_value(cur) > 255);
                                assert(hex_value(cur.push(c)) >= hex_value(cur));
                            }
                        }
                    }
                },
                None => {
                    proof {
                        assert(!all_hex(cur.push(c)));
                    }
                    cur_ok = false;
                },
            }
            cur_len = cur_len + 1;
        }
        i += 1;
    }

    proof {
        assert(host@.subrange(0, n as int) =~= host@);
    }
    let ghost segs = split_colon(host@);
    proof {
        lemma_split_colon_nonempty(host@);
    }

    // Judge the segment count first, then the segments themselves.
    if vals.len() < 5 {
        return Err(ROLErr::of(ErrKind::TooShort));
    }
    if vals.len() > 5 {
        return Err(ROLErr::of(ErrKind::TooLong));
    }
    if !(cur_ok && cur_len >= 1) {
        proof {
            assert(segs[5] == segs.last());
            assert(!segment_ok(segs[5]));
        }
        return Err(ROLErr::of(ErrKind::InvalidFormat));
    }
    if !closed_ok {
        return Err(ROLErr::of(ErrKind::InvalidFormat));
    }
    let mut octets = vals;
    octets.push(cur_val as u8);
    proof {
        assert(segs[5] == segs.last());
        assert(forall|i: int| 0 <= i < 6 ==> segment_ok(#[trigger] segs[i]));
        assert(octets@ =~= Seq::new(6, |i: int| hex_value(segs[i]) as u8));
    }
    Ok(HardwareAddress { octets })
}

/// Parses the contiguous form: twelve hexadecimal digits, two per octet.
fn parse_contiguous_form(host: &str) -> (r: Result<HardwareAddress, ROLErr>)
    requires
        !has_colon(host@),
    ensures
        match r {
            Ok(h) => h.wf() && parse_spec(host@) == Ok::<Seq<u8>, ErrKind>(h@),
            Err(e) => parse_spec(host@) == Err::<Seq<u8>, ErrKind>(e.kind),
        },
{
    let n = host.unicode_len();
    if n <= 10 {
        return Err(ROLErr::of(ErrKind::TooShort));
    }
    if n >= 13 {
        return Err(ROLErr::of(ErrKind::TooLong));
    }
    if n == 11 {
        return Err(ROLErr::of(ErrKind::InvalidFormat));
    }
    let mut octets: Vec<u8> = Vec::new();
    let mut i: usize = 0;
    while i < 6
        invariant
            !has_colon(host@),
            i <= 6,
            n == 12,
            n == host@.len(),
            octets@.len() == i,
            forall|j: int| 0 <= j < 2 * i ==> is_hex_digit(#[trigger] host@[j]),
            forall|j: int| 0 <= j < i ==> octets@[j] == (hex_digit_value(host@[2 * j]) * 16
                + hex_digit_value(host@[2 * j + 1])) as u8,
        decreases 6 - i,
    {
        let c0 = host.get_char(2 * i);
        let c1 = host.get_char(2 * i + 1);
        let d0 = match hex_digit(c0) {
            Some(d) => d,
            None => {
                proof {
                    assert(!is_hex_digit(host@[2 * i as int]));
                    assert(!all_hex(host@));
                }
                return Err(ROLErr::of(ErrKind::InvalidFormat));
            },
        };
        let d1 = match hex_digit(c1) {
            Some(d) => d,
            None => {
                proof {
                    assert(!is_hex_digit(host@[2 * i as int + 1]));
                    assert(!all_hex(host@));
                }
                return Err(ROLErr::of(ErrKind::InvalidFormat));
            },
        };
        octets.push(d0 * 16 + d1);
        proof {
            assert(is_hex_digit(host@[2 * i as int]));
            assert(is_hex_digit(host@[2 * i as int + 1]));
            assert(forall|j: int| 0 <= j < 2 * (i + 1) ==> is_hex_digit(#[trigger] host@[j]));
        }
        i += 1;
    }
    proof {
        assert(all_hex(host@));
        assert(octets@ =~= Seq::new(6, |j: int| (hex_digit_value(host@[2 * j]) * 16
            + hex_digit_value(host@[2 * j + 1])) as u8));
    }
    Ok(HardwareAddress { octets })
}

} // verus!
