//! The confirmation-token wire format: colon-delimited decimal fields
//! carried inside a button interaction payload, parsed once at the
//! boundary into typed values and rejected with a typed error when
//! malformed.
//!
//! The decimal representation used by the fields is specified by
//! [`dec_rep`] and [`dec_val`]: every non-negative number has exactly one
//! representation (no leading zeros), and the parser accepts exactly
//! those.

use vstd::prelude::*;
use vstd::string::StrSliceExecFns;
use vstd::string::StringExecFns;
use crate::defs::{challenge_raw, interaction_raw, Challenge, Error, InteractionID};

verus! {

/// Whether a character is a decimal digit.
pub open spec fn is_digit(c: char) -> bool {
    c == '0' || c == '1' || c == '2' || c == '3' || c == '4' || c == '5' || c == '6' || c == '7'
        || c == '8' || c == '9'
}

/// The value of a digit character; meaningful only on digits.
pub open spec fn digit_val(c: char) -> int {
    if c == '0' {
        0
    } else if c == '1' {
        1
    } else if c == '2' {
        2
    } else if c == '3' {
        3
    } else if c == '4' {
        4
    } else if c == '5' {
        5
    } else if c == '6' {
        6
    } else if c == '7' {
        7
    } else if c == '8' {
        8
    } else {
        9
    }
}

/// The digit character of a value; meaningful only below ten.
pub open spec fn digit_char(d: int) -> char {
    if d == 0 {
        '0'
    } else if d == 1 {
        '1'
    } else if d == 2 {
        '2'
    } else if d == 3 {
        '3'
    } else if d == 4 {
        '4'
    } else if d == 5 {
        '5'
    } else if d == 6 {
        '6'
    } else if d == 7 {
        '7'
    } else if d == 8 {
        '8'
    } else {
        '9'
    }
}

/// Whether every character of a sequence is a decimal digit.
pub open spec fn all_digits(s: Seq<char>) -> bool {
    forall|i: int| 0 <= i < s.len() ==> is_digit(#[trigger] s[i])
}

/// The number that a sequence of digit characters denotes.
pub open spec fn dec_val(s: Seq<char>) -> int
    decreases s.len(),
{
    if s.len() == 0 {
        0
    } else {
        dec_val(s.drop_last()) * 10 + digit_val(s.last())
    }
}

/// The canonical decimal representation of a non-negative number: at
/// least one digit, and no leading zero except for zero itself.
pub open spec fn dec_rep(n: int) -> Seq<char>
    decreases n,
{
    if n < 10 {
        seq![digit_char(n)]
    } else {
        dec_rep(n / 10).push(digit_char(n % 10))
    }
}

/// A denoted number is never negative.
pub proof fn lemma_dec_val_nonneg(s: Seq<char>)
    ensures
        dec_val(s) >= 0,
    decreases s.len(),
{
    if s.len() > 0 {
        lemma_dec_val_nonneg(s.drop_last());
    }
}

/// A digit run that does not start with zero denotes at least one.
pub proof fn lemma_dec_val_pos(s: Seq<char>)
    requires
        s.len() >= 1,
        s[0] != '0',
    ensures
        dec_val(s) >= 1,
    decreases s.len(),
{
    if s.len() == 1 {
        assert(s.drop_last() =~= Seq::<char>::empty());
        assert(dec_val(Seq::<char>::empty()) == 0);
        assert(s.last() == s[0]);
        assert(digit_val(s[0]) >= 1);
    } else {
        let front = s.drop_last();
        assert(front[0] == s[0]);
        lemma_dec_val_pos(front);
        assert(dec_val(s) == dec_val(front) * 10 + digit_val(s.last()));
        assert(digit_val(s.last()) >= 0);
    }
}

/// Extending a digit run to the right never decreases the denoted
/// number.
pub proof fn lemma_dec_val_extend(s: Seq<char>, a: int, b: int, c: int)
    requires
        0 <= a <= b <= c <= s.len(),
    ensures
        dec_val(s.subrange(a, b)) <= dec_val(s.subrange(a, c)),
    decreases c - b,
{
    if b < c {
        lemma_dec_val_extend(s, a, b, c - 1);
        let longer = s.subrange(a, c);
        assert(longer.drop_last() =~= s.subrange(a, c - 1));
        lemma_dec_val_nonneg(s.subrange(a, c - 1));
    }
}

/// The canonical representation is made of digits, is never empty, has
/// no leading zero unless it is zero itself, and denotes the number it
/// was built from.
pub proof fn lemma_dec_rep_props(n: int)
    requires
        n >= 0,
    ensures
        all_digits(dec_rep(n)),
        dec_rep(n).len() >= 1,
        dec_val(dec_rep(n)) == n,
        n >= 1 ==> dec_rep(n)[0] != '0',
    decreases n,
{
    if n < 10 {
        let s = dec_rep(n);
        assert(s =~= seq![digit_char(n)]);
        assert(s.drop_last() =~= Seq::<char>::empty());
        assert(dec_val(Seq::<char>::empty()) == 0);
        assert(dec_val(s) == digit_val(digit_char(n)));
    } else {
        lemma_dec_rep_props(n / 10);
        let front = dec_rep(n / 10);
        let s = dec_rep(n);
        assert(s == front.push(digit_char(n % 10)));
        assert(s.drop_last() =~= front);
        assert(s[0] == front[0]);
        assert(dec_val(s) == dec_val(front) * 10 + digit_val(digit_char(n % 10)));
        assert(dec_val(s) == (n / 10) * 10 + n % 10);
    }
}

/// Every non-empty digit run without a leading zero is the canonical
/// representation of the number it denotes: the representation is
/// unique.
pub proof fn lemma_dec_canonical(s: Seq<char>)
    requires
        all_digits(s),
        s.len() >= 1,
        s.len() > 1 ==> s[0] != '0',
    ensures
        dec_val(s) >= 0,
        s =~= dec_rep(dec_val(s)),
    decreases s.len(),
{
    lemma_dec_val_nonneg(s);
    if s.len() == 1 {
        assert(s.drop_last() =~= Seq::<char>::empty());
        assert(dec_val(Seq::<char>::empty()) == 0);
        assert(dec_val(s) == digit_val(s[0]));
        assert(is_digit(s[0]));
        assert(digit_char(digit_val(s[0])) == s[0]);
        assert(dec_rep(dec_val(s)) =~= seq![digit_char(dec_val(s))]);
    } else {
        let front = s.drop_last();
        assert(front[0] == s[0]);
        assert(forall|i: int| 0 <= i < front.len() ==> is_digit(#[trigger] front[i]));
        lemma_dec_canonical(front);
        lemma_dec_val_pos(front);
        let fv = dec_val(front);
        let dl = digit_val(s.last());
        assert(is_digit(s.last()));
        assert(0 <= dl <= 9);
        let v = dec_val(s);
        assert(v == fv * 10 + dl);
        assert(v >= 10);
        assert(v / 10 == fv && v % 10 == dl) by {
            assert(v == 10 * fv + dl);
        }
        assert(digit_char(digit_val(s.last())) == s.last());
        assert(dec_rep(v) == dec_rep(fv).push(digit_char(dl)));
    }
}

/// The single-character string of one digit value.
fn digit_str(d: u64) -> (r: &'static str)
    requires
        d < 10,
    ensures
        r@ =~= seq![digit_char(d as int)],
{
    proof {
        reveal_strlit("0");
        reveal_strlit("1");
        reveal_strlit("2");
        reveal_strlit("3");
        reveal_strlit("4");
        reveal_strlit("5");
        reveal_strlit("6");
        reveal_strlit("7");
        reveal_strlit("8");
        reveal_strlit("9");
    }
    if d == 0 {
        "0"
    } else if d == 1 {
        "1"
    } else if d == 2 {
        "2"
    } else if d == 3 {
        "3"
    } else if d == 4 {
        "4"
    } else if d == 5 {
        "5"
    } else if d == 6 {
        "6"
    } else if d == 7 {
        "7"
    } else if d == 8 {
        "8"
    } else {
        "9"
    }
}

/// Format a number as its canonical decimal representation.
pub fn fmt_u64(n: u64) -> (r: String)
    ensures
        r@ =~= dec_rep(n as int),
    decreases n,
{
    if n < 10 {
        String::from_str(digit_str(n))
    } else {
        let mut front = fmt_u64(n / 10);
        front.append(digit_str(n % 10));
        proof {
            assert(dec_rep(n as int) == dec_rep(n as int / 10).push(digit_char(n as int % 10)));
            assert(front@ =~= dec_rep(n as int / 10).push(digit_char(n as int % 10)));
        }
        front
    }
}

/// The confirmation token of an announcement attempt: the interaction it
/// belongs to, the challenge being announced, the freshness marker of the
/// generated image, and the originating queue entry when the prompt came
/// from the queue.  It exists only inside the interaction payload and is
/// never stored.
#[derive(Copy, Clone, Debug, PartialEq, Eq, Structural)]
pub struct AnnouncementToken {
    pub action: InteractionID,
    pub challenge: Challenge,
    pub marker: u64,
    pub queue_id: Option<i64>,
}

/// A token that can be carried on the wire: a queue entry reference is
/// never negative.
pub open spec fn token_wf(t: AnnouncementToken) -> bool {
    t.queue_id matches Some(id) ==> id >= 0
}

/// The wire form of a token: colon-delimited canonical decimal fields,
/// the queue entry last and only when present.
pub open spec fn token_rep(t: AnnouncementToken) -> Seq<char> {
    let base = dec_rep(interaction_raw(t.action) as int) + seq![':'] + dec_rep(
        challenge_raw(t.challenge) as int,
    ) + seq![':'] + dec_rep(t.marker as int);
    match t.queue_id {
        Some(id) => base + seq![':'] + dec_rep(id as int),
        None => base,
    }
}

/// Encode a token for the wire.
pub fn encode_token(t: &AnnouncementToken) -> (r: String)
    requires
        token_wf(*t),
    ensures
        r@ =~= token_rep(*t),
{
    proof {
        reveal_strlit(":");
    }
    let mut s = fmt_u64(t.action.raw() as u64);
    s.append(":");
    let challenge_part = fmt_u64(t.challenge.raw() as u64);
    s.append(challenge_part.as_str());
    s.append(":");
    let marker_part = fmt_u64(t.marker);
    s.append(marker_part.as_str());
    match t.queue_id {
        Some(id) => {
            s.append(":");
            let id_part = fmt_u64(id as u64);
            s.append(id_part.as_str());
        },
        None => {},
    }
    s
}

/// Where the action field of a token's wire form ends.
pub open spec fn action_end(t: AnnouncementToken) -> int {
    dec_rep(interaction_raw(t.action) as int).len() as int
}

/// Where the challenge field of a token's wire form ends.
pub open spec fn challenge_end(t: AnnouncementToken) -> int {
    action_end(t) + 1 + dec_rep(challenge_raw(t.challenge) as int).len()
}

/// Where the marker field of a token's wire form ends.
pub open spec fn marker_end(t: AnnouncementToken) -> int {
    challenge_end(t) + 1 + dec_rep(t.marker as int).len()
}

/// How the wire form of a token decomposes: three or four canonical
/// decimal fields, with colons exactly between them.
pub proof fn lemma_token_rep_structure(t: AnnouncementToken)
    requires
        token_wf(t),
    ensures
        token_rep(t).subrange(0, action_end(t)) =~= dec_rep(interaction_raw(t.action) as int),
        token_rep(t).subrange(action_end(t) + 1, challenge_end(t)) =~= dec_rep(
            challenge_raw(t.challenge) as int,
        ),
        token_rep(t).subrange(challenge_end(t) + 1, marker_end(t)) =~= dec_rep(t.marker as int),
        t.queue_id is None ==> token_rep(t).len() == marker_end(t),
        t.queue_id matches Some(id) ==> token_rep(t).len() == marker_end(t) + 1 + dec_rep(
            id as int,
        ).len() && token_rep(t).subrange(marker_end(t) + 1, token_rep(t).len() as int) =~= dec_rep(
            id as int,
        ),
        forall|k: int|
            0 <= k < token_rep(t).len() ==> ((token_rep(t)[k] == ':') <==> (k == action_end(t) || k
                == challenge_end(t) || (t.queue_id is Some && k == marker_end(t)))),
{
    let a = dec_rep(interaction_raw(t.action) as int);
    let c = dec_rep(challenge_raw(t.challenge) as int);
    let m = dec_rep(t.marker as int);
    let s = token_rep(t);
    lemma_dec_rep_props(interaction_raw(t.action) as int);
    lemma_dec_rep_props(challenge_raw(t.challenge) as int);
    lemma_dec_rep_props(t.marker as int);
    let pa = action_end(t);
    let pc = challenge_end(t);
    let pm = marker_end(t);
    match t.queue_id {
        None => {
            assert(s =~= a + seq![':'] + c + seq![':'] + m);
            assert(s.subrange(0, pa) =~= a);
            assert(s.subrange(pa + 1, pc) =~= c);
            assert(s.subrange(pc + 1, pm) =~= m);
            assert forall|k: int| 0 <= k < s.len() implies ((s[k] == ':') <==> (k == pa || k == pc))
                by {
                if k < pa {
                    assert(s[k] == a[k]);
                    assert(is_digit(a[k]));
                } else if pa < k < pc {
                    assert(s[k] == c[k - pa - 1]);
                    assert(is_digit(c[k - pa - 1]));
                } else if pc < k {
                    assert(s[k] == m[k - pc - 1]);
                    assert(is_digit(m[k - pc - 1]));
                }
            }
        },
        Some(id) => {
            let q = dec_rep(id as int);
            lemma_dec_rep_props(id as int);
            assert(s =~= a + seq![':'] + c + seq![':'] + m + seq![':'] + q);
            assert(s.subrange(0, pa) =~= a);
            assert(s.subrange(pa + 1, pc) =~= c);
            assert(s.subrange(pc + 1, pm) =~= m);
            assert(s.subrange(pm + 1, s.len() as int) =~= q);
            assert forall|k: int|
                0 <= k < s.len() implies ((s[k] == ':') <==> (k == pa || k == pc || k == pm)) by {
                if k < pa {
                    assert(s[k] == a[k]);
                    assert(is_digit(a[k]));
                } else if pa < k < pc {
                    assert(s[k] == c[k - pa - 1]);
                    assert(is_digit(c[k - pa - 1]));
                } else if pc < k < pm {
                    assert(s[k] == m[k - pc - 1]);
                    assert(is_digit(m[k - pc - 1]));
                } else if pm < k {
                    assert(s[k] == q[k - pm - 1]);
                    assert(is_digit(q[k - pm - 1]));
                }
            }
        },
    }
}

/// Whether the colon positions of an input are exactly the separators of
/// a token's wire form, with the input just long enough for its fields.
pub open spec fn cols_match(t: AnnouncementToken, cols: Seq<usize>, len: int) -> bool {
    match t.queue_id {
        None => cols.len() == 2 && cols[0] as int == action_end(t) && cols[1] as int
            == challenge_end(t) && len == marker_end(t),
        Some(id) => cols.len() == 3 && cols[0] as int == action_end(t) && cols[1] as int
            == challenge_end(t) && cols[2] as int == marker_end(t) && len == marker_end(t) + 1
            + dec_rep(id as int).len(),
    }
}

/// When an input is the wire form of a token, the colons that a scan
/// finds are exactly the token's separators, in order.
pub proof fn lemma_cols_for_rep(v: Seq<char>, cols: Seq<usize>, t: AnnouncementToken)
    requires
        token_wf(t),
        v =~= token_rep(t),
        v.len() <= usize::MAX,
        forall|j: int| 0 <= j < cols.len() ==> (#[trigger] cols[j]) < v.len() && v[cols[j] as int] == ':',
        forall|j1: int, j2: int| 0 <= j1 < j2 < cols.len() ==> cols[j1] < cols[j2],
        forall|k: int| 0 <= k < v.len() && v[k] == ':' ==> cols.contains(k as usize),
    ensures
        cols_match(t, cols, v.len() as int),
{
    lemma_token_rep_structure(t);
    lemma_dec_rep_props(interaction_raw(t.action) as int);
    lemma_dec_rep_props(challenge_raw(t.challenge) as int);
    lemma_dec_rep_props(t.marker as int);
    let pa = action_end(t);
    let pc = challenge_end(t);
    let pm = marker_end(t);
    assert(1 <= pa);
    assert(pa + 2 <= pc);
    assert(pc + 2 <= pm);
    match t.queue_id {
        None => {
            assert(v.len() == pm);
            assert(v[pa] == ':');
            assert(v[pc] == ':');
            assert(cols.contains(pa as usize));
            assert(cols.contains(pc as usize));
            let ja = choose|j: int| 0 <= j < cols.len() && cols[j] == pa as usize;
            let jc = choose|j: int| 0 <= j < cols.len() && cols[j] == pc as usize;
            assert(cols[ja] == pa as usize && cols[jc] == pc as usize);
            assert(ja != jc);
            assert(cols.len() >= 2);
            if cols.len() > 2 {
                assert(cols[0] < cols[1] < cols[2]);
                assert(cols[0] as int == pa || cols[0] as int == pc);
                assert(cols[1] as int == pa || cols[1] as int == pc);
                assert(cols[2] as int == pa || cols[2] as int == pc);
                assert(false);
            }
            assert(cols[0] < cols[1]);
            assert(cols[0] as int == pa || cols[0] as int == pc);
            assert(cols[1] as int == pa || cols[1] as int == pc);
            assert(ja == 0 || ja == 1);
            assert(jc == 0 || jc == 1);
            assert(cols[0] as int == pa && cols[1] as int == pc);
        },
        Some(id) => {
            lemma_dec_rep_props(id as int);
            assert(v.len() == pm + 1 + dec_rep(id as int).len());
            assert(pm < v.len());
            assert(v[pa] == ':');
            assert(v[pc] == ':');
            assert(v[pm] == ':');
            assert(cols.contains(pa as usize));
            assert(cols.contains(pc as usize));
            assert(cols.contains(pm as usize));
            let ja = choose|j: int| 0 <= j < cols.len() && cols[j] == pa as usize;
            let jc = choose|j: int| 0 <= j < cols.len() && cols[j] == pc as usize;
            let jm = choose|j: int| 0 <= j < cols.len() && cols[j] == pm as usize;
            assert(cols[ja] == pa as usize && cols[jc] == pc as usize && cols[jm] == pm as usize);
            assert(ja != jc && jc != jm && ja != jm);
            assert(cols.len() >= 3);
            if cols.len() > 3 {
                assert(cols[0] < cols[1] < cols[2] < cols[3]);
                assert(cols[0] as int == pa || cols[0] as int == pc || cols[0] as int == pm);
                assert(cols[1] as int == pa || cols[1] as int == pc || cols[1] as int == pm);
                assert(cols[2] as int == pa || cols[2] as int == pc || cols[2] as int == pm);
                assert(cols[3] as int == pa || cols[3] as int == pc || cols[3] as int == pm);
                assert(false);
            }
            assert(cols[0] < cols[1] < cols[2]);
            assert(cols[0] as int == pa || cols[0] as int == pc || cols[0] as int == pm);
            assert(cols[1] as int == pa || cols[1] as int == pc || cols[1] as int == pm);
            assert(cols[2] as int == pa || cols[2] as int == pc || cols[2] as int == pm);
            assert(cols[0] as int == pa && cols[1] as int == pc && cols[2] as int == pm);
        },
    }
}

/// The characters of a string, as a vector.
fn chars_of(s: &str) -> (r: Vec<char>)
    ensures
        r@ =~= s@,
{
    let n = s.unicode_len();
    let mut v: Vec<char> = Vec::new();
    let mut i: usize = 0;
    while i < n
        invariant
            n == s@.len(),
            i <= n,
            v@ =~= s@.subrange(0, i as int),
        decreases n - i,
    {
        v.push(s.get_char(i));
        proof {
            assert(v@ =~= s@.subrange(0, i as int + 1));
        }
        i = i + 1;
    }
    proof {
        assert(s@.subrange(0, n as int) =~= s@);
    }
    v
}

/// The positions of every colon in the input, in increasing order.
fn find_colons(v: &Vec<char>) -> (r: Vec<usize>)
    ensures
        forall|j: int| 0 <= j < r@.len() ==> (#[trigger] r@[j]) < v@.len() && v@[r@[j] as int] == ':',
        forall|j1: int, j2: int| 0 <= j1 < j2 < r@.len() ==> r@[j1] < r@[j2],
        forall|k: int| 0 <= k < v@.len() && v@[k] == ':' ==> r@.contains(k as usize),
{
    let n = v.len();
    let mut r: Vec<usize> = Vec::new();
    let mut i: usize = 0;
    while i < n
        invariant
            n == v@.len(),
            i <= n,
            forall|j: int| 0 <= j < r@.len() ==> (#[trigger] r@[j]) < i && v@[r@[j] as int] == ':',
            forall|j1: int, j2: int| 0 <= j1 < j2 < r@.len() ==> r@[j1] < r@[j2],
            forall|k: int| 0 <= k < i && v@[k] == ':' ==> r@.contains(k as usize),
        decreases n - i,
    {
        if v[i] == ':' {
            let ghost prev = r@;
            r.push(i);
            proof {
                assert(r@[r@.len() - 1] == i);
                assert forall|k: int| 0 <= k < i && v@[k] == ':' implies r@.contains(k as usize) by {
                    assert(prev.contains(k as usize));
                    let j = choose|j: int| 0 <= j < prev.len() && prev[j] == k as usize;
                    assert(r@[j] == k as usize);
                }
            }
        }
        i = i + 1;
    }
    r
}

/// Parse one field as a canonical decimal number.  The result is the
/// denoted value exactly when the field is the canonical representation
/// of a number that fits; otherwise the field matches no representation
/// at all.
fn parse_field(v: &Vec<char>, from: usize, to: usize) -> (r: Option<u64>)
    requires
        from <= to <= v@.len(),
    ensures
        ({
            let f = v@.subrange(from as int, to as int);
            match r {
                Some(x) => f =~= dec_rep(x as int),
                None => forall|n: int| 0 <= n <= u64::MAX ==> !(f =~= dec_rep(n)),
            }
        }),
{
    let ghost f = v@.subrange(from as int, to as int);
    if from == to {
        proof {
            assert forall|n: int| 0 <= n <= u64::MAX implies !(f =~= dec_rep(n)) by {
                lemma_dec_rep_props(n);
            }
        }
        return None;
    }
    if to - from > 1 && v[from] == '0' {
        proof {
            assert forall|n: int| 0 <= n <= u64::MAX implies !(f =~= dec_rep(n)) by {
                lemma_dec_rep_props(n);
                if f =~= dec_rep(n) {
                    assert(dec_rep(n)[0] == '0');
                    assert(dec_rep(n).len() > 1);
                    assert(n >= 1);
                }
            }
        }
        return None;
    }
    let mut val: u64 = 0;
    let mut k = from;
    while k < to
        invariant
            from <= k <= to <= v@.len(),
            f == v@.subrange(from as int, to as int),
            all_digits(v@.subrange(from as int, k as int)),
            val == dec_val(v@.subrange(from as int, k as int)),
        decreases to - k,
    {
        let c = v[k];
        let d: u64 = match c {
            '0' => 0,
            '1' => 1,
            '2' => 2,
            '3' => 3,
            '4' => 4,
            '5' => 5,
            '6' => 6,
            '7' => 7,
            '8' => 8,
            '9' => 9,
            _ => {
                proof {
                    assert(!is_digit(v@[k as int]));
                    assert forall|n: int| 0 <= n <= u64::MAX implies !(f =~= dec_rep(n)) by {
                        lemma_dec_rep_props(n);
                        if f =~= dec_rep(n) {
                            assert(is_digit(f[k - from]));
                            assert(f[k - from] == v@[k as int]);
                        }
                    }
                }
                return None;
            },
        };
        let ghost prefix = v@.subrange(from as int, k as int);
        let ghost prefix1 = v@.subrange(from as int, k as int + 1);
        proof {
            assert(prefix1.drop_last() =~= prefix);
            assert(prefix1.last() == v@[k as int]);
            assert(digit_val(v@[k as int]) == d as int);
            assert(is_digit(v@[k as int]));
        }
        if val > u64::MAX / 10 || (val == u64::MAX / 10 && d > u64::MAX % 10) {
            proof {
                lemma_dec_val_nonneg(prefix);
                assert(dec_val(prefix1) == val as int * 10 + d as int);
                assert(dec_val(prefix1) > u64::MAX as int);
                lemma_dec_val_extend(v@, from as int, k as int + 1, to as int);
                assert(dec_val(f) >= dec_val(prefix1));
                assert forall|n: int| 0 <= n <= u64::MAX implies !(f =~= dec_rep(n)) by {
                    lemma_dec_rep_props(n);
                    if f =~= dec_rep(n) {
                        assert(dec_val(f) == n);
                    }
                }
            }
            return None;
        }
        val = val * 10 + d;
        k = k + 1;
    }
    proof {
        assert(v@.subrange(from as int, to as int) == f);
        assert(f.len() >= 1);
        assert(f.len() > 1 ==> f[0] != '0');
        lemma_dec_canonical(f);
    }
    Some(val)
}

/// Parse an input whose only colons stand at `c0` and `c1`: the wire
/// form of a token without a queue entry.
fn parse_two_fields(v: &Vec<char>, cols: &Vec<usize>) -> (r: Result<AnnouncementToken, Error>)
    requires
        v@.len() <= usize::MAX,
        cols@.len() == 2,
        forall|j: int|
            0 <= j < cols@.len() ==> (#[trigger] cols@[j]) < v@.len() && v@[cols@[j] as int] == ':',
        forall|j1: int, j2: int| 0 <= j1 < j2 < cols@.len() ==> cols@[j1] < cols@[j2],
        forall|k: int| 0 <= k < v@.len() && v@[k] == ':' ==> cols@.contains(k as usize),
    ensures
        r matches Ok(t) ==> token_wf(t) && v@ =~= token_rep(t),
        forall|t: AnnouncementToken|
            token_wf(t) && v@ =~= token_rep(t) ==> r == Ok::<AnnouncementToken, Error>(t),
        r is Err ==> r == Err::<AnnouncementToken, Error>(Error::Validation),
{
    let ghost vlen = v@.len() as int;
    proof {
        assert forall|t: AnnouncementToken|
            token_wf(t) && v@ =~= token_rep(t) implies cols_match(t, cols@, vlen)
            && t.queue_id is None by {
            lemma_cols_for_rep(v@, cols@, t);
        }
    }
    let c0 = cols[0];
    let c1 = cols[1];
    let action_val = match parse_field(v, 0, c0) {
        Some(x) => x,
        None => {
            proof {
                assert forall|t: AnnouncementToken| !(token_wf(t) && v@ =~= token_rep(t)) by {
                    if token_wf(t) && v@ =~= token_rep(t) {
                        lemma_token_rep_structure(t);
                        assert(v@.subrange(0, c0 as int) =~= dec_rep(
                            interaction_raw(t.action) as int,
                        ));
                        assert(false);
                    }
                }
            }
            return Err(Error::Validation);
        },
    };
    let challenge_val = match parse_field(v, c0 + 1, c1) {
        Some(x) => x,
        None => {
            proof {
                assert forall|t: AnnouncementToken| !(token_wf(t) && v@ =~= token_rep(t)) by {
                    if token_wf(t) && v@ =~= token_rep(t) {
                        lemma_token_rep_structure(t);
                        assert(v@.subrange(c0 as int + 1, c1 as int) =~= dec_rep(
                            challenge_raw(t.challenge) as int,
                        ));
                        assert(false);
                    }
                }
            }
            return Err(Error::Validation);
        },
    };
    let marker = match parse_field(v, c1 + 1, v.len()) {
        Some(x) => x,
        None => {
            proof {
                assert forall|t: AnnouncementToken| !(token_wf(t) && v@ =~= token_rep(t)) by {
                    if token_wf(t) && v@ =~= token_rep(t) {
                        lemma_token_rep_structure(t);
                        assert(v@.subrange(c1 as int + 1, vlen) =~= dec_rep(t.marker as int));
                        assert(false);
                    }
                }
            }
            return Err(Error::Validation);
        },
    };
    if action_val > 1 || challenge_val > 1 {
        proof {
            assert forall|t: AnnouncementToken| !(token_wf(t) && v@ =~= token_rep(t)) by {
                if token_wf(t) && v@ =~= token_rep(t) {
                    lemma_token_rep_structure(t);
                    let raw_a = interaction_raw(t.action) as int;
                    let raw_c = challenge_raw(t.challenge) as int;
                    assert(v@.subrange(0, c0 as int) =~= dec_rep(raw_a));
                    assert(v@.subrange(c0 as int + 1, c1 as int) =~= dec_rep(raw_c));
                    lemma_dec_rep_props(raw_a);
                    lemma_dec_rep_props(raw_c);
                    lemma_dec_rep_props(action_val as int);
                    lemma_dec_rep_props(challenge_val as int);
                    assert(raw_a == action_val as int && raw_c == challenge_val as int);
                    assert(false);
                }
            }
        }
        return Err(Error::Validation);
    }
    let action = if action_val == 0 {
        InteractionID::ConfirmAnnouncement
    } else {
        InteractionID::CancelAnnouncement
    };
    let challenge = if challenge_val == 0 {
        Challenge::Glyph
    } else {
        Challenge::Ambigram
    };
    let token = AnnouncementToken { action, challenge, marker, queue_id: None };
    proof {
        assert(interaction_raw(token.action) as int == action_val as int);
        assert(challenge_raw(token.challenge) as int == challenge_val as int);
        assert(v@ =~= v@.subrange(0, c0 as int) + seq![v@[c0 as int]] + v@.subrange(
            c0 as int + 1,
            c1 as int,
        ) + seq![v@[c1 as int]] + v@.subrange(c1 as int + 1, vlen));
        assert(v@ =~= token_rep(token));
        assert forall|t: AnnouncementToken|
            token_wf(t) && v@ =~= token_rep(t) implies t == token by {
            lemma_token_rep_structure(t);
            let raw_a = interaction_raw(t.action) as int;
            let raw_c = challenge_raw(t.challenge) as int;
            assert(v@.subrange(0, c0 as int) =~= dec_rep(raw_a));
            assert(v@.subrange(c0 as int + 1, c1 as int) =~= dec_rep(raw_c));
            assert(v@.subrange(c1 as int + 1, vlen) =~= dec_rep(t.marker as int));
            lemma_dec_rep_props(raw_a);
            lemma_dec_rep_props(raw_c);
            lemma_dec_rep_props(t.marker as int);
            lemma_dec_rep_props(action_val as int);
            lemma_dec_rep_props(challenge_val as int);
            lemma_dec_rep_props(marker as int);
            assert(raw_a == action_val as int);
            assert(raw_c == challenge_val as int);
            assert(t.marker == marker);
            assert(t.action == token.action);
            assert(t.challenge == token.challenge);
        }
    }
    Ok(token)
}

/// Parse an input whose only colons stand at the three given positions:
/// the wire form of a token with a queue entry.
#[verifier::rlimit(60)]
fn parse_three_fields(v: &Vec<char>, cols: &Vec<usize>) -> (r: Result<AnnouncementToken, Error>)
    requires
        v@.len() <= usize::MAX,
        cols@.len() == 3,
        forall|j: int|
            0 <= j < cols@.len() ==> (#[trigger] cols@[j]) < v@.len() && v@[cols@[j] as int] == ':',
        forall|j1: int, j2: int| 0 <= j1 < j2 < cols@.len() ==> cols@[j1] < cols@[j2],
        forall|k: int| 0 <= k < v@.len() && v@[k] == ':' ==> cols@.contains(k as usize),
    ensures
        r matches Ok(t) ==> token_wf(t) && v@ =~= token_rep(t),
        forall|t: AnnouncementToken|
            token_wf(t) && v@ =~= token_rep(t) ==> r == Ok::<AnnouncementToken, Error>(t),
        r is Err ==> r == Err::<AnnouncementToken, Error>(Error::Validation),
{
    let ghost vlen = v@.len() as int;
    proof {
        assert forall|t: AnnouncementToken|
            token_wf(t) && v@ =~= token_rep(t) implies cols_match(t, cols@, vlen)
            && t.queue_id is Some by {
            lemma_cols_for_rep(v@, cols@, t);
        }
    }
    let c0 = cols[0];
    let c1 = cols[1];
    let c2 = cols[2];
    let action_val = match parse_field(v, 0, c0) {
        Some(x) => x,
        None => {
            proof {
                assert forall|t: AnnouncementToken| !(token_wf(t) && v@ =~= token_rep(t)) by {
                    if token_wf(t) && v@ =~= token_rep(t) {
                        lemma_token_rep_structure(t);
                        assert(v@.subrange(0, c0 as int) =~= dec_rep(
                            interaction_raw(t.action) as int,
                        ));
                        assert(false);
                    }
                }
            }
            return Err(Error::Validation);
        },
    };
    let challenge_val = match parse_field(v, c0 + 1, c1) {
        Some(x) => x,
        None => {
            proof {
                assert forall|t: AnnouncementToken| !(token_wf(t) && v@ =~= token_rep(t)) by {
                    if token_wf(t) && v@ =~= token_rep(t) {
                        lemma_token_rep_structure(t);
                        assert(v@.subrange(c0 as int + 1, c1 as int) =~= dec_rep(
                            challenge_raw(t.challenge) as int,
                        ));
                        assert(false);
                    }
                }
            }
            return Err(Error::Validation);
        },
    };
    let marker = match parse_field(v, c1 + 1, c2) {
        Some(x) => x,
        None => {
            proof {
                assert forall|t: AnnouncementToken| !(token_wf(t) && v@ =~= token_rep(t)) by {
                    if token_wf(t) && v@ =~= token_rep(t) {
                        lemma_token_rep_structure(t);
                        assert(v@.subrange(c1 as int + 1, c2 as int) =~= dec_rep(t.marker as int));
                        assert(false);
                    }
                }
            }
            return Err(Error::Validation);
        },
    };
    let queue_val = match parse_field(v, c2 + 1, v.len()) {
        Some(x) => x,
        None => {
            proof {
                assert forall|t: AnnouncementToken| !(token_wf(t) && v@ =~= token_rep(t)) by {
                    if token_wf(t) && v@ =~= token_rep(t) {
                        lemma_token_rep_structure(t);
                        match t.queue_id {
                            Some(id) => {
                                assert(v@.subrange(c2 as int + 1, vlen) =~= dec_rep(id as int));
                                assert(false);
                            },
                            None => {},
                        }
                    }
                }
            }
            return Err(Error::Validation);
        },
    };
    if action_val > 1 || challenge_val > 1 || queue_val > 0x7fff_ffff_ffff_ffff {
        proof {
            assert forall|t: AnnouncementToken| !(token_wf(t) && v@ =~= token_rep(t)) by {
                if token_wf(t) && v@ =~= token_rep(t) {
                    lemma_token_rep_structure(t);
                    let raw_a = interaction_raw(t.action) as int;
                    let raw_c = challenge_raw(t.challenge) as int;
                    assert(v@.subrange(0, c0 as int) =~= dec_rep(raw_a));
                    assert(v@.subrange(c0 as int + 1, c1 as int) =~= dec_rep(raw_c));
                    lemma_dec_rep_props(raw_a);
                    lemma_dec_rep_props(raw_c);
                    lemma_dec_rep_props(action_val as int);
                    lemma_dec_rep_props(challenge_val as int);
                    assert(raw_a == action_val as int && raw_c == challenge_val as int);
                    match t.queue_id {
                        Some(id) => {
                            assert(v@.subrange(c2 as int + 1, vlen) =~= dec_rep(id as int));
                            lemma_dec_rep_props(id as int);
                            lemma_dec_rep_props(queue_val as int);
                            assert(id as int == queue_val as int);
                        },
                        None => {},
                    }
                    assert(false);
                }
            }
        }
        return Err(Error::Validation);
    }
    let action = if action_val == 0 {
        InteractionID::ConfirmAnnouncement
    } else {
        InteractionID::CancelAnnouncement
    };
    let challenge = if challenge_val == 0 {
        Challenge::Glyph
    } else {
        Challenge::Ambigram
    };
    let token = AnnouncementToken { action, challenge, marker, queue_id: Some(queue_val as i64) };
    proof {
        assert(interaction_raw(token.action) as int == action_val as int);
        assert(challenge_raw(token.challenge) as int == challenge_val as int);
        assert(token.queue_id->0 as int == queue_val as int);
        assert(v@ =~= v@.subrange(0, c0 as int) + seq![v@[c0 as int]] + v@.subrange(
            c0 as int + 1,
            c1 as int,
        ) + seq![v@[c1 as int]] + v@.subrange(c1 as int + 1, c2 as int) + seq![v@[c2 as int]]
            + v@.subrange(c2 as int + 1, vlen));
        assert(v@ =~= token_rep(token));
        assert forall|t: AnnouncementToken|
            token_wf(t) && v@ =~= token_rep(t) implies t == token by {
            lemma_token_rep_structure(t);
            let raw_a = interaction_raw(t.action) as int;
            let raw_c = challenge_raw(t.challenge) as int;
            let id = t.queue_id->0;
            assert(v@.subrange(0, c0 as int) =~= dec_rep(raw_a));
            assert(v@.subrange(c0 as int + 1, c1 as int) =~= dec_rep(raw_c));
            assert(v@.subrange(c1 as int + 1, c2 as int) =~= dec_rep(t.marker as int));
            assert(v@.subrange(c2 as int + 1, vlen) =~= dec_rep(id as int));
            lemma_dec_rep_props(raw_a);
            lemma_dec_rep_props(raw_c);
            lemma_dec_rep_props(t.marker as int);
            lemma_dec_rep_props(id as int);
            lemma_dec_rep_props(action_val as int);
            lemma_dec_rep_props(challenge_val as int);
            lemma_dec_rep_props(marker as int);
            lemma_dec_rep_props(queue_val as int);
            assert(raw_a == action_val as int);
            assert(raw_c == challenge_val as int);
            assert(t.marker == marker);
            assert(id as int == queue_val as int);
            assert(t.action == token.action);
            assert(t.challenge == token.challenge);
            assert(t.queue_id == token.queue_id);
        }
    }
    Ok(token)
}

/// Parse the wire form of a confirmation token.  Exactly the canonical
/// encodings are accepted: the parser returns the one token whose wire
/// form is the input, and rejects everything else — an unknown action or
/// challenge, a malformed or missing numeric field, an out-of-range
/// value — with a validation error, never a panic.
pub fn parse_token(s: &str) -> (r: Result<AnnouncementToken, Error>)
    ensures
        r matches Ok(t) ==> token_wf(t) && s@ =~= token_rep(t),
        forall|t: AnnouncementToken|
            token_wf(t) && s@ =~= token_rep(t) ==> r == Ok::<AnnouncementToken, Error>(t),
        r is Err ==> r == Err::<AnnouncementToken, Error>(Error::Validation),
{
    let v = chars_of(s);
    let cols = find_colons(&v);
    let n = v.len();
    proof {
        assert(v@.len() == n as int);
    }
    if cols.len() == 2 {
        parse_two_fields(&v, &cols)
    } else if cols.len() == 3 {
        parse_three_fields(&v, &cols)
    } else {
        let ghost vlen = v@.len() as int;
        proof {
            assert forall|t: AnnouncementToken| !(token_wf(t) && s@ =~= token_rep(t)) by {
                if token_wf(t) && s@ =~= token_rep(t) {
                    lemma_cols_for_rep(v@, cols@, t);
                    assert(false);
                }
            }
        }
        Err(Error::Validation)
    }
}

} // verus!
