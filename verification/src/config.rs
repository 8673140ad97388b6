//! The core's settings, and the reading of its settings file.
//!
//! The file is a line-oriented `key = value` text with one recognized
//! key, `max_room_size`, taking a positive integer of at most nine
//! digits. Lines that are not such an assignment — comments, section
//! headers, anything else — assign nothing; where several assignments
//! appear, the last one wins; where none does, a conservative default
//! is used. Reading the file from disk is the embedding layer's work;
//! the text comes in here as a value.

use vstd::prelude::*;

verus! {

/// The room size used when no configuration is given.
pub const DEFAULT_MAX_ROOM_SIZE: usize = 16;

/// Typed settings for the core.
#[derive(Debug, Clone, Copy, PartialEq, Eq)]
pub struct Config {
    /// The largest number of master handles a room may hold.
    pub max_room_size: usize,
}

impl Config {
    /// Settings with a given room capacity.
    pub fn new(max_room_size: usize) -> (c: Config)
        ensures
            c.max_room_size == max_room_size,
    {
        Config { max_room_size }
    }
}

impl Default for Config {
    /// The conservative settings used when the configuration file is
    /// missing or malformed.
    fn default() -> (c: Config)
        ensures
            c.max_room_size == DEFAULT_MAX_ROOM_SIZE,
    {
        Config { max_room_size: DEFAULT_MAX_ROOM_SIZE }
    }
}

/// Whether a character is horizontal whitespace (or a carriage return,
/// so that files with either line ending read the same).
pub open spec fn spec_is_space(c: char) -> bool {
    c == ' ' || c == '\t' || c == '\r'
}

/// Whether a character is a decimal digit.
pub open spec fn spec_is_digit(c: char) -> bool {
    '0' <= c && c <= '9'
}

/// A sequence with its leading whitespace dropped.
pub open spec fn spec_trim_front(s: Seq<char>) -> Seq<char>
    decreases s.len(),
{
    if s.len() > 0 && spec_is_space(s[0]) {
        spec_trim_front(s.drop_first())
    } else {
        s
    }
}

/// A sequence with its trailing whitespace dropped.
pub open spec fn spec_trim_back(s: Seq<char>) -> Seq<char>
    decreases s.len(),
{
    if s.len() > 0 && spec_is_space(s.last()) {
        spec_trim_back(s.drop_last())
    } else {
        s
    }
}

/// A sequence with whitespace dropped at both ends.
pub open spec fn spec_trim(s: Seq<char>) -> Seq<char> {
    spec_trim_back(spec_trim_front(s))
}

/// The position of the first occurrence of a character.
pub open spec fn spec_find(s: Seq<char>, c: char) -> Option<int>
    decreases s.len(),
{
    if s.len() == 0 {
        Option::None
    } else if s[0] == c {
        Option::Some(0)
    } else {
        match spec_find(s.drop_first(), c) {
            Option::Some(i) => Option::Some(i + 1),
            Option::None => Option::None,
        }
    }
}

/// What the position found by [`spec_find`] satisfies.
pub proof fn lemma_find_props(s: Seq<char>, c: char)
    ensures
        match spec_find(s, c) {
            Option::Some(i) => 0 <= i < s.len() && s[i] == c,
            Option::None => forall|j: int| 0 <= j < s.len() ==> s[j] != c,
        },
    decreases s.len(),
{
    if s.len() == 0 {
    } else if s[0] == c {
    } else {
        lemma_find_props(s.drop_first(), c);
        assert(forall|j: int| 0 <= j < s.len() - 1 ==> #[trigger] s.drop_first()[j] == s[j + 1]);
        if spec_find(s.drop_first(), c) is None {
            assert forall|j: int| 0 <= j < s.len() implies s[j] != c by {
                if j > 0 {
                    assert(s.drop_first()[j - 1] != c);
                }
            }
        }
    }
}

/// The numeric value of a digit sequence.
pub open spec fn spec_num_val(s: Seq<char>) -> int
    decreases s.len(),
{
    if s.len() == 0 {
        0
    } else {
        spec_num_val(s.drop_last()) * 10 + (s.last() as int - '0' as int)
    }
}

/// A digit sequence's value is bounded by ten to its length.
pub proof fn lemma_num_val_bound(s: Seq<char>)
    requires
        forall|j: int| 0 <= j < s.len() ==> spec_is_digit(#[trigger] s[j]),
    ensures
        0 <= spec_num_val(s) < pow10(s.len() as int),
    decreases s.len(),
{
    if s.len() == 0 {
        reveal_with_fuel(pow10, 2);
        assert(pow10(0) == 1);
    } else {
        assert(forall|j: int|
            0 <= j < s.len() - 1 ==> #[trigger] s.drop_last()[j] == s[j]);
        lemma_num_val_bound(s.drop_last());
        assert(spec_is_digit(s.last()));
        assert(pow10(s.len() as int) == 10 * pow10(s.len() - 1));
    }
}

/// Ten to a power.
pub open spec fn pow10(n: int) -> int
    decreases n,
{
    if n <= 0 {
        1
    } else {
        10 * pow10(n - 1)
    }
}

/// The value assigned to the recognized key, when the sequence is all
/// digits, short enough to fit, and positive.
pub open spec fn spec_parse_size(s: Seq<char>) -> Option<int> {
    if s.len() > 0 && s.len() <= 9 && (forall|j: int|
        0 <= j < s.len() ==> spec_is_digit(#[trigger] s[j])) && spec_num_val(s) > 0 {
        Option::Some(spec_num_val(s))
    } else {
        Option::None
    }
}

/// What one line assigns: a value only when it is an assignment to
/// `max_room_size` with a well-formed positive size.
pub open spec fn spec_line_value(line: Seq<char>) -> Option<int> {
    match spec_find(line, '=') {
        Option::None => Option::None,
        Option::Some(i) => {
            let key = spec_trim(line.take(i));
            let val = spec_trim(line.skip(i + 1));
            if key == "max_room_size"@ {
                spec_parse_size(val)
            } else {
                Option::None
            }
        },
    }
}

/// The later of two assignments.
pub open spec fn spec_merge(acc: Option<int>, v: Option<int>) -> Option<int> {
    if v is Some {
        v
    } else {
        acc
    }
}

/// The last value assigned over the text, scanned line by line.
pub open spec fn spec_scan(s: Seq<char>, acc: Option<int>) -> Option<int>
    decreases s.len(),
{
    match spec_find(s, '\n') {
        Option::None => spec_merge(acc, spec_line_value(s)),
        Option::Some(i) => if 0 <= i < s.len() {
            spec_scan(s.skip(i + 1), spec_merge(acc, spec_line_value(s.take(i))))
        } else {
            acc
        },
    }
}

/// The room size a settings text yields: the last well-formed
/// assignment, or the default.
pub open spec fn spec_max_room_size_of(s: Seq<char>) -> int {
    match spec_scan(s, Option::None) {
        Option::Some(v) => v,
        Option::None => DEFAULT_MAX_ROOM_SIZE as int,
    }
}

/// The characters of a piece of text.
fn chars_of(s: &str) -> (v: Vec<char>)
    ensures
        v@ == s@,
{
    let n: usize = s.unicode_len();
    let mut v: Vec<char> = Vec::new();
    let mut i: usize = 0;
    while i < n
        invariant
            n == s@.len(),
            0 <= i <= n,
            v@ == s@.subrange(0, i as int),
        decreases n - i,
    {
        v.push(s.get_char(i));
        proof {
            assert(v@ =~= s@.subrange(0, i + 1));
        }
        i += 1;
    }
    proof {
        assert(v@ =~= s@);
    }
    v
}

/// The position of the first occurrence of `c` at or after `lo`.
fn find_from(v: &Vec<char>, lo: usize, hi: usize, c: char) -> (r: Option<usize>)
    requires
        lo <= hi <= v@.len(),
    ensures
        match r {
            Option::Some(i) => lo <= i < hi && spec_find(v@.subrange(lo as int, hi as int), c)
                == Option::Some(i - lo),
            Option::None => spec_find(v@.subrange(lo as int, hi as int), c) is None,
        },
{
    let mut i: usize = lo;
    proof {
        let sub = v@.subrange(lo as int, hi as int);
        assert(sub.skip(0) =~= sub);
    }
    while i < hi
        invariant
            lo <= i <= hi <= v@.len(),
            spec_find(v@.subrange(lo as int, hi as int), c) == match spec_find(
                v@.subrange(lo as int, hi as int).skip(i - lo),
                c,
            ) {
                Option::Some(k) => Option::Some(k + (i - lo)),
                Option::None => Option::<int>::None,
            },
        decreases hi - i,
    {
        proof {
            let sub = v@.subrange(lo as int, hi as int);
            assert(sub.skip(i - lo)[0] == v@[i as int]);
        }
        if v[i] == c {
            return Some(i);
        }
        proof {
            let sub = v@.subrange(lo as int, hi as int);
            assert(sub.skip(i - lo).drop_first() =~= sub.skip(i + 1 - lo));
        }
        i += 1;
    }
    None
}

/// Whether a character is horizontal whitespace.
fn is_space(c: char) -> (r: bool)
    ensures
        r == spec_is_space(c),
{
    c == ' ' || c == '\t' || c == '\r'
}

/// The subrange left when a range is trimmed at both ends.
fn trim_range(v: &Vec<char>, lo: usize, hi: usize) -> (r: (usize, usize))
    requires
        lo <= hi <= v@.len(),
    ensures
        lo <= r.0 <= r.1 <= hi,
        v@.subrange(r.0 as int, r.1 as int) == spec_trim(v@.subrange(lo as int, hi as int)),
{
    let mut a: usize = lo;
    proof {
        assert(v@.subrange(lo as int, hi as int).skip(0) =~= v@.subrange(lo as int, hi as int));
    }
    while a < hi && is_space(v[a])
        invariant
            lo <= a <= hi <= v@.len(),
            spec_trim_front(v@.subrange(lo as int, hi as int)) == spec_trim_front(
                v@.subrange(a as int, hi as int),
            ),
        decreases hi - a,
    {
        proof {
            let sub = v@.subrange(a as int, hi as int);
            assert(sub[0] == v@[a as int]);
            assert(sub.drop_first() =~= v@.subrange(a + 1, hi as int));
        }
        a += 1;
    }
    proof {
        let sub = v@.subrange(a as int, hi as int);
        if sub.len() > 0 {
            assert(sub[0] == v@[a as int]);
        }
        assert(spec_trim_front(v@.subrange(lo as int, hi as int)) == sub);
    }
    let mut b: usize = hi;
    while b > a && is_space(v[b - 1])
        invariant
            lo <= a <= b <= hi <= v@.len(),
            spec_trim_back(v@.subrange(a as int, hi as int)) == spec_trim_back(
                v@.subrange(a as int, b as int),
            ),
        decreases b,
    {
        proof {
            let sub = v@.subrange(a as int, b as int);
            assert(sub.last() == v@[b - 1]);
            assert(sub.drop_last() =~= v@.subrange(a as int, b - 1));
        }
        b -= 1;
    }
    proof {
        let sub = v@.subrange(a as int, b as int);
        if sub.len() > 0 {
            assert(sub.last() == v@[b - 1]);
        }
        assert(spec_trim_back(v@.subrange(a as int, b as int)) == sub);
    }
    (a, b)
}

/// The value of an all-digit range, when it parses as a size.
fn parse_size(v: &Vec<char>, lo: usize, hi: usize) -> (r: Option<usize>)
    requires
        lo <= hi <= v@.len(),
    ensures
        match r {
            Option::Some(x) => spec_parse_size(v@.subrange(lo as int, hi as int))
                == Option::Some(x as int),
            Option::None => spec_parse_size(v@.subrange(lo as int, hi as int)) is None,
        },
{
    let len: usize = hi - lo;
    if len == 0 || len > 9 {
        return None;
    }
    let mut acc: usize = 0;
    let mut i: usize = lo;
    while i < hi
        invariant
            lo <= i <= hi <= v@.len(),
            hi - lo <= 9,
            forall|j: int| lo <= j < i ==> spec_is_digit(#[trigger] v@[j]),
            acc == spec_num_val(v@.subrange(lo as int, i as int)),
            0 <= acc < pow10(i - lo),
        decreases hi - i,
    {
        let c = v[i];
        if !('0' <= c && c <= '9') {
            proof {
                let sub = v@.subrange(lo as int, hi as int);
                assert(!spec_is_digit(sub[i - lo]));
            }
            return None;
        }
        let d: usize = (c as u32 as usize) - 48;
        proof {
            assert(pow10(i - lo) <= pow10(8)) by {
                lemma_pow10_monotone(i - lo, 8);
            }
            assert(pow10(8) == 100000000) by {
                reveal_with_fuel(pow10, 10);
            }
            assert(d <= 9);
        }
        acc = acc * 10 + d;
        proof {
            let sub2 = v@.subrange(lo as int, i + 1);
            assert(sub2.drop_last() =~= v@.subrange(lo as int, i as int));
            assert(sub2.last() == v@[i as int]);
            assert(acc == spec_num_val(sub2));
            assert(pow10(i + 1 - lo) == 10 * pow10(i - lo));
        }
        i += 1;
    }
    proof {
        let sub = v@.subrange(lo as int, hi as int);
        assert(forall|j: int| 0 <= j < sub.len() ==> spec_is_digit(#[trigger] sub[j]));
        assert(acc == spec_num_val(sub));
    }
    if acc == 0 {
        return None;
    }
    Some(acc)
}

/// Powers of ten do not shrink.
proof fn lemma_pow10_monotone(a: int, b: int)
    requires
        a <= b,
    ensures
        pow10(a) <= pow10(b),
    decreases b - a,
{
    if a < b {
        lemma_pow10_monotone(a, b - 1);
        if b > 0 {
            assert(pow10(b) == 10 * pow10(b - 1));
            assert(pow10(b - 1) >= 1) by {
                lemma_pow10_pos(b - 1);
            }
        }
    }
}

/// Powers of ten are positive.
proof fn lemma_pow10_pos(n: int)
    ensures
        pow10(n) >= 1,
    decreases (if n > 0 {
        n
    } else {
        0
    }),
{
    if n > 0 {
        lemma_pow10_pos(n - 1);
    }
}

/// What one line of the settings text assigns.
fn line_value(v: &Vec<char>, lo: usize, hi: usize, pattern: &Vec<char>) -> (r: Option<usize>)
    requires
        lo <= hi <= v@.len(),
        pattern@ == "max_room_size"@,
    ensures
        match r {
            Option::Some(x) => spec_line_value(v@.subrange(lo as int, hi as int)) == Option::Some(
                x as int,
            ),
            Option::None => spec_line_value(v@.subrange(lo as int, hi as int)) is None,
        },
{
    let eq = match find_from(v, lo, hi, '=') {
        Some(i) => i,
        None => {
            return None;
        },
    };
    proof {
        let line = v@.subrange(lo as int, hi as int);
        assert(line.take(eq - lo) =~= v@.subrange(lo as int, eq as int));
        assert(line.skip(eq - lo + 1) =~= v@.subrange(eq + 1, hi as int));
    }
    let (ka, kb) = trim_range(v, lo, eq);
    let (va, vb) = trim_range(v, eq + 1, hi);
    // Compare the key with the one recognized name.
    let klen: usize = kb - ka;
    if klen != pattern.len() {
        proof {
            assert(v@.subrange(ka as int, kb as int) != "max_room_size"@);
        }
        return None;
    }
    let mut i: usize = 0;
    while i < klen
        invariant
            lo <= eq < hi <= v@.len(),
            lo <= ka <= kb <= eq,
            ka + klen == kb,
            klen == pattern@.len(),
            0 <= i <= klen,
            pattern@ == "max_room_size"@,
            spec_find(v@.subrange(lo as int, hi as int), '=') == Option::Some(eq - lo),
            v@.subrange(ka as int, kb as int) == spec_trim(
                v@.subrange(lo as int, hi as int).take(eq - lo),
            ),
            forall|j: int| 0 <= j < i ==> v@[ka + j] == pattern@[j],
        decreases klen - i,
    {
        if !(v[ka + i] == pattern[i]) {
            proof {
                assert(v@.subrange(ka as int, kb as int)[i as int] == v@[ka + i]);
                assert(v@.subrange(ka as int, kb as int)[i as int] != pattern@[i as int]);
                assert(v@.subrange(ka as int, kb as int) != "max_room_size"@);
            }
            return None;
        }
        i += 1;
    }
    proof {
        assert(v@.subrange(ka as int, kb as int) =~= pattern@);
    }
    parse_size(v, va, vb)
}

impl Config {
    /// Read settings out of the settings file's text. A malformed or
    /// empty text yields the default.
    pub fn from_text(text: &str) -> (c: Config)
        ensures
            c.max_room_size as int == spec_max_room_size_of(text@),
    {
        let pattern = chars_of("max_room_size");
        proof {
            reveal_strlit("max_room_size");
        }
        let v = chars_of(text);
        let n: usize = v.len();
        let mut acc: Option<usize> = None;
        let mut pos: usize = 0;
        let ghost whole = v@;
        proof {
            assert(whole.skip(0) =~= whole);
        }
        loop
            invariant_except_break
                pattern@ == "max_room_size"@,
                v@ == whole,
                n == whole.len(),
                0 <= pos <= n,
                spec_scan(whole, Option::None) == spec_scan(
                    whole.skip(pos as int),
                    match acc {
                        Option::Some(x) => Option::Some(x as int),
                        Option::None => Option::<int>::None,
                    },
                ),
            ensures
                spec_scan(whole, Option::None) == match acc {
                    Option::Some(x) => Option::Some(x as int),
                    Option::None => Option::<int>::None,
                },
            decreases n - pos,
        {
            let nl = find_from(&v, pos, n, '\n');
            proof {
                let rest = whole.skip(pos as int);
                assert(rest =~= whole.subrange(pos as int, n as int));
                match nl {
                    Option::Some(i) => {
                        assert(spec_find(rest, '\n') == Option::Some(i - pos));
                        assert(rest.take(i - pos) =~= whole.subrange(pos as int, i as int));
                        assert(rest.skip(i - pos + 1) =~= whole.skip(i + 1));
                    },
                    Option::None => {
                        assert(spec_find(rest, '\n') is None);
                    },
                }
            }
            match nl {
                Some(i) => {
                    let lv = line_value(&v, pos, i, &pattern);
                    if lv.is_some() {
                        acc = lv;
                    }
                    pos = i + 1;
                },
                None => {
                    let lv = line_value(&v, pos, n, &pattern);
                    if lv.is_some() {
                        acc = lv;
                    }
                    proof {
                        assert(whole.subrange(pos as int, n as int) =~= whole.skip(pos as int));
                    }
                    break;
                },
            }
        }
        match acc {
            Some(x) => Config { max_room_size: x },
            None => Config { max_room_size: DEFAULT_MAX_ROOM_SIZE },
        }
    }
}

} // verus!
