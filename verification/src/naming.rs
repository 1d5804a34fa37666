//! Names of backup folders: the destination prefix, the last `\`-separated
//! segment of the source path, the word `_backup_` and a UTC timestamp.

use vstd::prelude::*;

use crate::text::chars_of;

verus! {

/// The part of `s` after its last backslash, or all of `s` when it holds none
/// (the last item of `s.split("\\")`).
pub open spec fn last_backslash_segment(s: Seq<char>) -> Seq<char>
    decreases s.len(),
{
    if s.len() == 0 {
        s
    } else if s.last() == '\\' {
        Seq::empty()
    } else {
        last_backslash_segment(s.drop_last()).push(s.last())
    }
}

pub open spec fn backup_word() -> Seq<char> {
    seq!['_', 'b', 'a', 'c', 'k', 'u', 'p', '_']
}

/// The backup name for source `src`, destination prefix `dest` and timestamp `timestamp`.
pub open spec fn backup_name_of(src: Seq<char>, dest: Seq<char>, timestamp: Seq<char>) -> Seq<char> {
    dest + last_backslash_segment(src) + backup_word() + timestamp
}

/// The part of `s` after its last backslash.
pub fn last_segment(s: &str) -> (r: &str)
    ensures
        r@ == last_backslash_segment(s@),
{
    let v = chars_of(s);
    let n = v.len();
    let mut k = n;
    assert(s@.take(n as int) =~= s@);
    assert(s@.subrange(n as int, n as int) =~= Seq::<char>::empty());
    while k > 0 && v[k - 1] != '\\'
        invariant
            k <= n,
            n == v@.len(),
            v@ == s@,
            last_backslash_segment(s@) == last_backslash_segment(s@.take(k as int)) + s@.subrange(
                k as int,
                n as int,
            ),
        decreases k,
    {
        let ghost t = s@.take(k as int);
        assert(t.drop_last() =~= s@.take(k - 1));
        assert(last_backslash_segment(t) == last_backslash_segment(s@.take(k - 1)).push(s@[k - 1]));
        assert(last_backslash_segment(s@.take(k - 1)).push(s@[k - 1]) + s@.subrange(k as int, n as int)
            =~= last_backslash_segment(s@.take(k - 1)) + s@.subrange(k - 1, n as int));
        k = k - 1;
    }
    assert(last_backslash_segment(s@.take(k as int)) =~= Seq::<char>::empty());
    assert(last_backslash_segment(s@) =~= s@.subrange(k as int, n as int));
    s.substring_char(k, n)
}

/// The backup name for source `src`, destination prefix `dest` and timestamp `timestamp`.
pub fn backup_name(src: &str, dest: &str, timestamp: &str) -> (r: String)
    ensures
        r@ == backup_name_of(src@, dest@, timestamp@),
{
    let mut r = dest.to_owned();
    r.append(last_segment(src));
    let word = "_backup_";
    proof {
        reveal_strlit("_backup_");
    }
    assert(word@ =~= backup_word());
    r.append(word);
    r.append(timestamp);
    r
}

pub open spec fn is_ascii_digit(c: char) -> bool {
    '0' <= c && c <= '9'
}

/// The shape of a `%Y%m%d%H%M%S` timestamp: at least 14 characters, all ASCII
/// digits except a possible leading sign (years beyond 9999, or before year 0,
/// are written with a sign and at least four digits).
pub open spec fn is_compact_stamp(ts: Seq<char>) -> bool {
    &&& ts.len() >= 14
    &&& forall|k: int|
        0 <= k < ts.len() ==> is_ascii_digit(#[trigger] ts[k]) || (k == 0 && (ts[k] == '+'
            || ts[k] == '-'))
}

/// The text that chrono writes, with the pattern `%Y%m%d%H%M%S`, for the UTC
/// time `secs` seconds and `nanos` nanoseconds after 1970-01-01T00:00:00; `None`
/// when `DateTime::from_timestamp(secs, nanos)` rejects that time.
pub uninterp spec fn compact_utc_stamp(secs: i64, nanos: u32) -> Option<Seq<char>>;

/// Calls `chrono::DateTime::from_timestamp(secs, nanos)` and formats the result
/// with the pattern `%Y%m%d%H%M%S`. Stated: the result is `compact_utc_stamp`
/// of the arguments; every formatted time has the shape `is_compact_stamp`,
/// without a minus sign when `secs` is not negative (chrono writes the year with
/// four zero-padded digits when it lies in 0..=9999 and with a sign and at least
/// four digits otherwise, and every other field with two digits); and
/// `from_timestamp` accepts every time up to the end of year 9999 with fewer
/// than a billion nanoseconds. The exact limits of the accepted range are left
/// unsaid.
#[verifier::external_body]
fn format_utc_stamp(secs: i64, nanos: u32) -> (r: Option<String>)
    ensures
        match r {
            Some(s) => {
                &&& compact_utc_stamp(secs, nanos) == Some(s@)
                &&& is_compact_stamp(s@)
                &&& secs >= 0 ==> s@[0] != '-'
            },
            None => compact_utc_stamp(secs, nanos) is None,
        },
        (0 <= secs <= 253_402_300_799 && nanos < 1_000_000_000) ==> r is Some,
{
    match chrono::DateTime::from_timestamp(secs, nanos) {
        Some(t) => Some(t.format("%Y%m%d%H%M%S").to_string()),
        None => None,
    }
}

/// Reads the system clock: `SystemTime::now().duration_since(UNIX_EPOCH)`, as
/// whole seconds and the nanoseconds beyond them; `None` when the clock reads a
/// time before 1970. The reading depends on the clock, so the only clause is
/// what `Duration::subsec_nanos` documents: the nanoseconds are below one billion.
#[verifier::external_body]
fn unix_time_now() -> (r: Option<(u64, u32)>)
    ensures
        r matches Some((_, nanos)) ==> nanos < 1_000_000_000,
{
    match std::time::SystemTime::now().duration_since(std::time::UNIX_EPOCH) {
        Ok(d) => Some((d.as_secs(), d.subsec_nanos())),
        Err(_) => None,
    }
}

/// The backup name for the UTC time `secs` seconds and `nanos` nanoseconds after
/// 1970-01-01T00:00:00 (the seconds taken as `i64`, as chrono takes them).
pub open spec fn backup_name_at_time(
    src: Seq<char>,
    dest: Seq<char>,
    secs: u64,
    nanos: u32,
) -> Option<Seq<char>> {
    match compact_utc_stamp(secs as i64, nanos) {
        Some(ts) => Some(backup_name_of(src, dest, ts)),
        None => None,
    }
}

/// The name for a backup of `src` under the destination prefix `dest`, stamped
/// with the UTC time `secs` seconds and `nanos` nanoseconds after 1970; `None`
/// when chrono rejects that time.
pub fn backup_name_at(src: &str, dest: &str, secs: u64, nanos: u32) -> (r: Option<String>)
    ensures
        match r {
            Some(name) => backup_name_at_time(src@, dest@, secs, nanos) == Some(name@),
            None => backup_name_at_time(src@, dest@, secs, nanos) is None,
        },
        r matches Some(name) ==> exists|ts: Seq<char>|
            is_compact_stamp(ts) && name@ == backup_name_of(src@, dest@, ts),
        (secs <= 253_402_300_799 && nanos < 1_000_000_000) ==> r is Some,
{
    #[verifier::truncate]
    let seconds = secs as i64;
    match format_utc_stamp(seconds, nanos) {
        Some(stamp) => Some(backup_name(src, dest, stamp.as_str())),
        None => None,
    }
}

/// A name for a backup of `src` under the destination prefix `dest`, stamped
/// with the current UTC time. `None` only when the clock reads a time before
/// 1970 or one that chrono rejects.
pub fn generate_backup_name(src: &str, dest: &str) -> (r: Option<String>)
    ensures
        r matches Some(name) ==> exists|ts: Seq<char>|
            is_compact_stamp(ts) && name@ == backup_name_of(src@, dest@, ts),
        r matches Some(name) ==> exists|secs: u64, nanos: u32|
            nanos < 1_000_000_000 && backup_name_at_time(src@, dest@, secs, nanos) == Some(name@),
{
    match unix_time_now() {
        Some((secs, nanos)) => backup_name_at(src, dest, secs, nanos),
        None => None,
    }
}

} // verus!
