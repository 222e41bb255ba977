//! Lock files: what one holds, when one is stale, and how one is waited for.
use crate::canonical;
use crate::number;
use crate::pieces;
use crate::target_set;
use crate::text;
use crate::text::CharClass;
use vstd::prelude::*;
use vstd::string::*;

verus! {

broadcast use vstd::string::group_string_axioms;

/// How long to wait between two tries, in milliseconds.
pub const FILE_LOCK_RETRY_INTERVAL_MILLIS: u64 = 10;

/// How long to try, in milliseconds.
pub const FILE_LOCK_TIMEOUT_MILLIS: u64 = 2000;

/// The age from which a lock is stale, in seconds.
pub const FILE_LOCK_STALE_AFTER_SECS: u64 = 30;

/// The contents of the lock file of a process: its number, and the time at which it took the lock,
/// in seconds since the epoch.
pub open spec fn lock_text(pid: u32, epoch: u64) -> Seq<char> {
    number::decimal(pid as nat) + seq!['\n'] + number::decimal(epoch as nat) + seq!['\n']
}

/// Writes the contents of a lock file.
pub fn lock_metadata(pid: u32, epoch: u64) -> (r: String)
    ensures
        r@ == lock_text(pid, epoch),
{
    let mut s = number::decimal_of(pid as u64);
    s.push('\n');
    s.append(number::decimal_of(epoch).as_str());
    s.push('\n');
    assert(s@ =~= lock_text(pid, epoch));
    s
}

/// What a lock file says.
#[derive(Debug, Clone, Copy, PartialEq, Eq, Structural)]
pub enum LockCheck {
    /// The lock is stale and can be taken away.
    Stale,
    /// The lock is held.
    Held,
    /// The file holds no time; its own age decides.
    Unstamped,
}

/// What a lock is refused for.
#[derive(Debug, Clone, Copy, PartialEq, Eq, Structural)]
pub enum LockError {
    InvalidTimestamp,
    MissingTimestamp,
    TimedOut,
}

/// The message for an error, where the lock file is at `path`.
pub open spec fn lock_error_text(e: LockError, path: Seq<char>) -> Seq<char> {
    match e {
        LockError::InvalidTimestamp => "failed to parse "@ + path + "; invalid lock timestamp"@,
        LockError::MissingTimestamp => "failed to parse "@ + path + "; missing lock timestamp"@,
        LockError::TimedOut => "timed out waiting for lock "@ + path,
    }
}

impl LockError {
    /// The message for the error.
    pub fn message(&self, path: &str) -> (r: String)
        ensures
            r@ == lock_error_text(*self, path@),
    {
        match self {
            LockError::InvalidTimestamp => {
                let mut s = "failed to parse ".to_string();
                s.append(path);
                s.append("; invalid lock timestamp");
                s
            },
            LockError::MissingTimestamp => {
                let mut s = "failed to parse ".to_string();
                s.append(path);
                s.append("; missing lock timestamp");
                s
            },
            LockError::TimedOut => {
                let mut s = "timed out waiting for lock ".to_string();
                s.append(path);
                s
            },
        }
    }
}

/// Whether a lock that was taken at `created` is stale at `now`. A time in the future counts as now.
pub open spec fn is_stale(created: nat, now: u64) -> bool {
    now >= created + FILE_LOCK_STALE_AFTER_SECS
}

/// What a lock file with these contents says at `now`. The time is on the second line.
pub open spec fn lock_check(contents: Seq<char>, now: u64) -> Result<LockCheck, LockError> {
    let lines = pieces::lines(contents);
    if lines.len() < 2 {
        Ok(LockCheck::Unstamped)
    } else {
        match number::parse_up_to(text::trim(lines[1]), u64::MAX as nat) {
            None => Err(LockError::InvalidTimestamp),
            Some(created) => if is_stale(created, now) {
                Ok(LockCheck::Stale)
            } else {
                Ok(LockCheck::Held)
            },
        }
    }
}

/// Reads what a lock file says.
pub fn try_remove_stale_lock(contents: &str, now: u64) -> (r: Result<LockCheck, LockError>)
    ensures
        r == lock_check(contents@, now),
{
    let lines = pieces::line_list(contents);
    if lines.len() < 2 {
        return Ok(LockCheck::Unstamped);
    }
    assert(pieces::texts(lines@)[1] == lines@[1]@);
    match number::read_number(text::trimmed(lines[1].as_str()), u64::MAX) {
        None => Err(LockError::InvalidTimestamp),
        Some(created) => if now >= created && now - created >= FILE_LOCK_STALE_AFTER_SECS {
            Ok(LockCheck::Stale)
        } else {
            Ok(LockCheck::Held)
        },
    }
}

/// Decides about a lock file without a time by its age in whole seconds: a young one may still be
/// written.
pub fn unstamped_lock(age_secs: u64) -> (r: Result<(), LockError>)
    ensures
        r == (if age_secs < FILE_LOCK_STALE_AFTER_SECS {
            Ok::<(), LockError>(())
        } else {
            Err(LockError::MissingTimestamp)
        }),
        r is Ok <==> age_secs < 30,
{
    if age_secs < FILE_LOCK_STALE_AFTER_SECS {
        Ok(())
    } else {
        Err(LockError::MissingTimestamp)
    }
}

/// What came of a try to take a lock.
#[derive(Debug, Clone, Copy, PartialEq, Eq, Structural)]
pub enum LockTry {
    /// The lock file was made.
    Created,
    /// The lock file was there.
    Taken { stale_removed: bool, waited_millis: u64 },
}

/// What to do next.
#[derive(Debug, Clone, Copy, PartialEq, Eq, Structural)]
pub enum LockAction {
    Proceed,
    TryAgain,
    WaitAndTryAgain,
}

/// Decides what to do after a try to take a lock.
pub fn acquire_file_lock(tried: LockTry) -> (r: Result<LockAction, LockError>)
    ensures
        r == (match tried {
            LockTry::Created => Ok(LockAction::Proceed),
            LockTry::Taken { stale_removed, waited_millis } => if stale_removed {
                Ok(LockAction::TryAgain)
            } else if waited_millis < FILE_LOCK_TIMEOUT_MILLIS {
                Ok(LockAction::WaitAndTryAgain)
            } else {
                Err::<LockAction, LockError>(LockError::TimedOut)
            },
        }),
        r is Err <==> (tried matches LockTry::Taken { stale_removed, waited_millis }
            && !stale_removed && waited_millis >= 2000),
{
    match tried {
        LockTry::Created => Ok(LockAction::Proceed),
        LockTry::Taken { stale_removed, waited_millis } => if stale_removed {
            Ok(LockAction::TryAgain)
        } else if waited_millis < FILE_LOCK_TIMEOUT_MILLIS {
            Ok(LockAction::WaitAndTryAgain)
        } else {
            Err(LockError::TimedOut)
        },
    }
}

/// A lock that a process took is held until it is old enough to be stale: every lock file that is
/// written can be read, and says when it was taken.
pub proof fn written_lock_is_held_until_stale(pid: u32, epoch: u64, now: u64)
    ensures
        lock_check(lock_text(pid, epoch), now) == Ok::<LockCheck, LockError>(
            if now >= epoch + FILE_LOCK_STALE_AFTER_SECS {
                LockCheck::Stale
            } else {
                LockCheck::Held
            },
        ),
{
    let p = number::decimal(pid as nat);
    let e = number::decimal(epoch as nat);
    number::decimal_is_digits(pid as nat);
    number::decimal_is_digits(epoch as nat);
    digits_are_one_line(p);
    digits_are_one_line(e);
    let none = Seq::<char>::empty();
    target_set::lines_append(none, p);
    assert(none + p + seq!['\n'] =~= p + seq!['\n']);
    assert(pieces::lines(none) =~= Seq::<Seq<char>>::empty());
    let first = p + seq!['\n'];
    target_set::lines_append(first, e);
    assert(first + e + seq!['\n'] =~= lock_text(pid, epoch));
    assert(pieces::lines(lock_text(pid, epoch))[1] == e);
    canonical::trim_unchanged(e, CharClass::WhiteSpace);
    number::number_round_trip(epoch as nat);
}

/// Decimal digits stand on one line.
proof fn digits_are_one_line(d: Seq<char>)
    requires
        number::all_digits(d),
        d.len() > 0,
    ensures
        !d.contains('\n'),
        d.last() != '\r',
        !text::is_white_space(d[0]),
        !text::is_white_space(d.last()),
{
    assert(text::is_digit(d[0]));
    assert(text::is_digit(d[d.len() - 1]));
    if d.contains('\n') {
        let i = choose|i: int| 0 <= i < d.len() && d[i] == '\n';
        assert(text::is_digit(d[i]));
    }
}

/// A lock is stale from thirty seconds on after it was taken, and not before: a file with the number
/// of a process and a time on lines of their own is held until then. One with a single line, or
/// none, has no time.
pub proof fn lock_is_stale_after_thirty_seconds(
    pid: u32,
    epoch: u64,
    now: u64,
    first: Seq<char>,
    second: Seq<char>,
)
    requires
        !first.contains('\n'),
        !second.contains('\n'),
        second.len() > 0,
        exists|i: int|
            0 <= i < text::trim(second).len() && !('0' <= #[trigger] text::trim(second)[i] <= '9')
                && text::trim(second)[i] != '+',
    ensures
        ({
            let contents = number::decimal(pid as nat) + seq!['\n'] + number::decimal(epoch as nat)
                + seq!['\n'];
            &&& lock_text(pid, epoch) == contents
            &&& now < epoch + 30 ==> lock_check(contents, now) == Ok::<LockCheck, LockError>(
                LockCheck::Held,
            )
            &&& now >= epoch + 30 ==> lock_check(contents, now) == Ok::<LockCheck, LockError>(
                LockCheck::Stale,
            )
        }),
        lock_check(first, now) == Ok::<LockCheck, LockError>(LockCheck::Unstamped),
        first.len() == 0 || first[first.len() - 1] != '\r' ==> lock_check(
            first + seq!['\n'] + second,
            now,
        ) == Err::<LockCheck, LockError>(LockError::InvalidTimestamp),
{
    written_lock_is_held_until_stale(pid, epoch, now);
    pieces::lines_end_in_line_feeds(first, second);
    pieces::lines_end_in_line_feeds(second, second);
    if first.len() == 0 {
        assert(first =~= Seq::<char>::empty());
    }
    let lines = seq![first] + seq![second];
    assert(lines[1] == second && lines.len() == 2);
    number::numbers_are_read_from_digits(0, text::trim(second), u64::MAX as nat);
}

} // verus!
