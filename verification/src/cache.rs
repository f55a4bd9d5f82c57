//! Cache key derivation and TTL policy.
//!
//! A chunk's place in the store is the string `"{asset}/{media}/init"` for an
//! initialization segment and `"{asset}/{media}/{asset}"` otherwise; both are
//! pure functions of their inputs. This retained scheme is ambiguous for the
//! one asset literally named `init`, whose two keys coincide. The TTL of a
//! buffer comes from the first `max-age=<digits>` directive of a
//! cache-control string, with a caller supplied default whenever no usable
//! directive is present.

use vstd::prelude::*;

verus! {

/// The cache key named by `(asset_id, media_type, is_init)`.
pub open spec fn spec_cache_key(asset: Seq<char>, media: Seq<char>, is_init: bool) -> Seq<char> {
    asset + seq!['/'] + media + seq!['/'] + (if is_init {
        seq!['i', 'n', 'i', 't']
    } else {
        asset
    })
}

/// Derive the store key for a chunk. Initialization segments of one asset
/// and media type share one key; all other chunks of that pair share another
/// — except for an asset literally named `init`, where the two keys
/// coincide: a known ambiguity of the retained non-init scheme.
pub fn get_cache_key(asset_id: &str, media_type: &str, is_init: bool) -> (key: String)
    ensures
        key@ == spec_cache_key(asset_id@, media_type@, is_init),
{
    proof {
        reveal_strlit("/");
        reveal_strlit("init");
    }
    let mut key = asset_id.to_owned();
    key.append("/");
    key.append(media_type);
    key.append("/");
    if is_init {
        key.append("init");
    } else {
        key.append(asset_id);
    }
    proof {
        assert(key@ =~= spec_cache_key(asset_id@, media_type@, is_init));
    }
    key
}

/// Deriving a key twice from the same inputs yields the same string: the key
/// is a function of `(asset, media, is_init)` alone.
pub proof fn lemma_cache_key_deterministic(
    asset: Seq<char>,
    media: Seq<char>,
    is_init: bool,
    k1: Seq<char>,
    k2: Seq<char>,
)
    requires
        k1 == spec_cache_key(asset, media, is_init),
        k2 == spec_cache_key(asset, media, is_init),
    ensures
        k1 == k2,
{
}

/// An ASCII decimal digit.
pub open spec fn spec_is_digit(c: char) -> bool {
    48 <= c as int && c as int <= 57
}

/// Numeric value of a sequence of ASCII digits, most significant first.
pub open spec fn spec_digits_value(s: Seq<char>) -> int
    decreases s.len(),
{
    if s.len() == 0 {
        0
    } else {
        spec_digits_value(s.drop_last()) * 10 + (s.last() as int - 48)
    }
}

/// The directive text that introduces a TTL.
pub open spec fn spec_directive() -> Seq<char> {
    seq!['m', 'a', 'x', '-', 'a', 'g', 'e', '=']
}

/// `max-age=` stands at position `i` of `s` and is followed by a digit.
pub open spec fn spec_match_at(s: Seq<char>, i: int) -> bool {
    &&& 0 <= i
    &&& i + 9 <= s.len()
    &&& s.subrange(i, i + 8) == spec_directive()
    &&& spec_is_digit(s[i + 8])
}

/// Position of the first usable `max-age=` directive at or after `i`.
pub open spec fn spec_find_directive(s: Seq<char>, i: int) -> Option<int>
    decreases s.len() - i,
    when 0 <= i <= s.len()
{
    if i + 9 > s.len() {
        None
    } else if spec_match_at(s, i) {
        Some(i)
    } else {
        spec_find_directive(s, i + 1)
    }
}

/// End of the run of digits that starts at `j`: the first position at or
/// after `j` holding no digit.
pub open spec fn spec_run_end(s: Seq<char>, j: int) -> int
    decreases s.len() - j,
    when 0 <= j <= s.len()
{
    if j >= s.len() || !spec_is_digit(s[j]) {
        j
    } else {
        spec_run_end(s, j + 1)
    }
}

/// TTL extracted from a cache-control string: the value of the digit run of
/// the first `max-age=<digits>` directive, or `default` when no directive is
/// present or the digits exceed `u64::MAX`.
pub open spec fn spec_max_age(s: Seq<char>, default: u64) -> u64 {
    match spec_find_directive(s, 0) {
        None => default,
        Some(i) => {
            let e = spec_run_end(s, i + 8);
            let v = spec_digits_value(s.subrange(i + 8, e));
            if v <= u64::MAX {
                v as u64
            } else {
                default
            }
        },
    }
}

/// Exec check for an ASCII digit.
fn is_digit_char(c: char) -> (b: bool)
    ensures
        b == spec_is_digit(c),
{
    let v = c as u32;
    48 <= v && v <= 57
}

/// Exec check that the directive, followed by a digit, stands at `i`.
fn is_directive_at(s: &str, i: usize) -> (b: bool)
    requires
        i + 9 <= s@.len(),
        s@.len() <= usize::MAX,
    ensures
        b == spec_match_at(s@, i as int),
{
    let c0 = s.get_char(i);
    let c1 = s.get_char(i + 1);
    let c2 = s.get_char(i + 2);
    let c3 = s.get_char(i + 3);
    let c4 = s.get_char(i + 4);
    let c5 = s.get_char(i + 5);
    let c6 = s.get_char(i + 6);
    let c7 = s.get_char(i + 7);
    let c8 = s.get_char(i + 8);
    let text_matches = c0 == 'm' && c1 == 'a' && c2 == 'x' && c3 == '-' && c4 == 'a' && c5 == 'g'
        && c6 == 'e' && c7 == '=';
    let b = text_matches && is_digit_char(c8);
    proof {
        if text_matches {
            assert(s@.subrange(i as int, i + 8) =~= spec_directive());
        } else {
            assert(s@.subrange(i as int, i + 8) != spec_directive()) by {
                if s@.subrange(i as int, i + 8) == spec_directive() {
                    assert(s@[i as int] == s@.subrange(i as int, i + 8)[0]);
                    assert(s@[i + 1] == s@.subrange(i as int, i + 8)[1]);
                    assert(s@[i + 2] == s@.subrange(i as int, i + 8)[2]);
                    assert(s@[i + 3] == s@.subrange(i as int, i + 8)[3]);
                    assert(s@[i + 4] == s@.subrange(i as int, i + 8)[4]);
                    assert(s@[i + 5] == s@.subrange(i as int, i + 8)[5]);
                    assert(s@[i + 6] == s@.subrange(i as int, i + 8)[6]);
                    assert(s@[i + 7] == s@.subrange(i as int, i + 8)[7]);
                }
            }
        }
    }
    b
}

/// Extending a digit run by one digit multiplies its value by ten and adds
/// the digit.
proof fn lemma_digits_value_snoc(s: Seq<char>, start: int, j: int)
    requires
        0 <= start <= j < s.len(),
    ensures
        spec_digits_value(s.subrange(start, j + 1)) == spec_digits_value(s.subrange(start, j)) * 10
            + (s[j] as int - 48),
{
    let ext = s.subrange(start, j + 1);
    assert(ext.drop_last() =~= s.subrange(start, j));
    assert(ext.last() == s[j]);
}

/// Scan a cache-control style string for `max-age=<digits>`; return the
/// digits' value when one is found and it fits in a `u64`, else `default`.
/// A missing directive or a non-numeric value never errors: the fallback is
/// silent by design.
pub fn get_max_age_from_controller(s: &str, default: u64) -> (r: u64)
    ensures
        r == spec_max_age(s@, default),
{
    let n = s.unicode_len();
    let mut i: usize = 0;
    let mut found: Option<usize> = None;
    while n >= 9 && i <= n - 9
        invariant_except_break
            found is None,
            spec_find_directive(s@, 0) == spec_find_directive(s@, i as int),
        invariant
            n == s@.len(),
            0 <= i <= n,
        ensures
            match found {
                None => spec_find_directive(s@, 0) is None,
                Some(at) => spec_find_directive(s@, 0) == Some(at as int) && at + 9 <= n,
            },
        decreases n - i,
    {
        if is_directive_at(s, i) {
            found = Some(i);
            proof {
                assert(spec_find_directive(s@, i as int) == Some(i as int));
            }
            break ;
        }
        i = i + 1;
    }
    match found {
        None => default,
        Some(at) => {
            assert(spec_find_directive(s@, 0) == Some(at as int));
            let start = at + 8;
            let mut j = start;
            let mut v: u64 = 0;
            let mut overflow = false;
            while j < n && is_digit_char(s.get_char(j))
                invariant
                    n == s@.len(),
                    0 <= start <= j <= n,
                    spec_run_end(s@, start as int) == spec_run_end(s@, j as int),
                    !overflow ==> v == spec_digits_value(s@.subrange(start as int, j as int)),
                    overflow ==> spec_digits_value(s@.subrange(start as int, j as int))
                        > u64::MAX,
                decreases n - j,
    {
                let d = s.get_char(j) as u32 as u64 - 48;
                proof {
                    lemma_digits_value_snoc(s@, start as int, j as int);
                }
                if !overflow {
                    match v.checked_mul(10) {
                        Some(m) => {
                            match m.checked_add(d) {
                                Some(sum) => {
                                    v = sum;
                                },
                                None => {
                                    overflow = true;
                                },
                            }
                        },
                        None => {
                            overflow = true;
                        },
                    }
                }
                j = j + 1;
            }
            assert(spec_run_end(s@, j as int) == j as int);
            assert(spec_run_end(s@, start as int) == j as int);
            if overflow {
                default
            } else {
                v
            }
        },
    }
}

} // verus!
