//! The kernel's error numbers that decide anything here.

use vstd::prelude::*;

verus! {

/// Operation not permitted.
pub const EPERM: i32 = 1;

/// Interrupted by a signal.
pub const EINTR: i32 = 4;

/// The completion queue is full.
pub const EAGAIN: i32 = 11;

/// No memory.
pub const ENOMEM: i32 = 12;

/// Submitting more would over-commit the system.
pub const EBUSY: i32 = 16;

/// The system has no descriptor left.
pub const ENFILE: i32 = 23;

/// The process has no descriptor left.
pub const EMFILE: i32 = 24;

/// Not implemented.
pub const ENOSYS: i32 = 38;

/// Timed out.
pub const ETIMEDOUT: i32 = 110;

/// Cancelled.
pub const ECANCELED: i32 = 125;

/// What a completion's result means: a count, or an error number.
pub open spec fn completion_result(res: i32) -> Result<usize, i32> {
    if res >= 0 {
        Ok(res as usize)
    } else if res == -ECANCELED {
        Err(ETIMEDOUT)
    } else {
        Err((-res) as i32)
    }
}

/// Turns a raw completion into a result. The rings report failure as a
/// negative error number in the completion.
///
/// `ECANCELED` is converted to `ETIMEDOUT`: that is what a linked operation
/// whose timeout fired completes with, and nobody looks at the result of an
/// operation that was truly cancelled.
pub fn transmute_error(res: i32) -> (result: Result<usize, i32>)
    requires
        res > i32::MIN,
    ensures
        result == completion_result(res),
        res >= 0 ==> (result matches Ok(count) && count as int == res as int),
        res < 0 && res != -125 ==> (result matches Err(errno) && errno + res == 0),
        res == -125 ==> (result matches Err(errno) && errno as int == 110),
{
    if res >= 0 {
        return Ok(res as usize);
    }
    let errno: i32 = -res;
    if errno == ECANCELED {
        Err(ETIMEDOUT)
    } else {
        Err(errno)
    }
}

/// A request comes to what the kernel reported of it. A result that is not
/// negative is a count and reaches the waiter as that very number; a negative
/// one is an error and reaches it as the number without its sign, but for a
/// cancellation, which is reported as a time that ran out. So two results that
/// differ are told apart, but for a cancellation and a time that ran out.
pub proof fn law_results_reach_the_waiter(a: i32, b: i32)
    requires
        a > i32::MIN,
        b > i32::MIN,
    ensures
        a >= 0 ==> (completion_result(a) matches Ok(count) && count as int == a as int),
        a < 0 ==> (completion_result(a) matches Err(errno) && errno > 0 && (a + errno == 0 || a == -125 && errno == 110)),
        a == -125 ==> completion_result(a) == completion_result(-110i32),
        completion_result(a) == completion_result(b) && a != b ==> (a == -125 || a == -110) && (b == -125 || b == -110),
        completion_result(a) is Ok && completion_result(b) is Ok ==> completion_result(a)->Ok_0
            - completion_result(b)->Ok_0 == a - b,
{
}

/// An error number that only says to try again later.
pub open spec fn is_passing(errno: i32) -> bool {
    errno == EBUSY || errno == EAGAIN || errno == EINTR
}

/// `result` with the error `errno` turned into a count of nothing.
pub open spec fn forgiving(result: Result<usize, Option<i32>>, errno: i32) -> Result<usize, Option<i32>> {
    if result == Err::<usize, _>(Some(errno)) {
        Ok(0)
    } else {
        result
    }
}

fn forgive(result: Result<usize, Option<i32>>, errno: i32) -> (outcome: Result<usize, Option<i32>>)
    ensures
        outcome == forgiving(result, errno),
{
    match result {
        Err(Some(e)) => if e == errno {
            Ok(0)
        } else {
            Err(Some(e))
        },
        other => other,
    }
}

/// The kernel can return `EBUSY` when submitting more requests would
/// over-commit the system. This is fine: we just need to make sure that we
/// don't sleep and that we don't fail rushed polls. So this error is ignored.
pub fn busy_ok(result: Result<usize, Option<i32>>) -> (outcome: Result<usize, Option<i32>>)
    ensures
        outcome == forgiving(result, EBUSY),
{
    forgive(result, EBUSY)
}

/// The kernel can return `EAGAIN` when the completion queue is full and more
/// requests are pushed. Ignored as `EBUSY` is.
pub fn again_ok(result: Result<usize, Option<i32>>) -> (outcome: Result<usize, Option<i32>>)
    ensures
        outcome == forgiving(result, EAGAIN),
{
    forgive(result, EAGAIN)
}

/// The kernel can return `EINTR` if the call was interrupted by a signal
/// delivery. Ignored as `EBUSY` is.
pub fn intr_ok(result: Result<usize, Option<i32>>) -> (outcome: Result<usize, Option<i32>>)
    ensures
        outcome == forgiving(result, EINTR),
{
    forgive(result, EINTR)
}

/// A count of nothing in place of an error that passes.
pub open spec fn forgiven(result: Result<usize, Option<i32>>) -> Result<usize, Option<i32>> {
    match result {
        Err(Some(errno)) => if is_passing(errno) {
            Ok(0)
        } else {
            result
        },
        _ => result,
    }
}

/// What a submission comes to once errors that pass are ignored.
pub fn submitted(result: Result<usize, Option<i32>>) -> (outcome: Result<usize, Option<i32>>)
    ensures
        outcome == forgiven(result),
        result matches Ok(count) ==> outcome == Ok::<usize, Option<i32>>(count),
        result matches Err(errno) ==> outcome == if errno == Some(4i32) || errno == Some(11i32) || errno == Some(16i32) {
            Ok::<usize, Option<i32>>(0)
        } else {
            Err(errno)
        },
{
    intr_ok(again_ok(busy_ok(result)))
}

/// An error that passes is forgiven whichever of the three it is, and no other
/// error and no count is touched.
pub proof fn law_only_passing_errors_are_forgiven(result: Result<usize, Option<i32>>)
    ensures
        forgiving(forgiving(forgiving(result, EBUSY), EAGAIN), EINTR) == forgiven(result),
        result matches Err(errno) && (errno matches Some(errno) ==> !is_passing(errno)) ==> forgiven(result) == result,
        result is Ok ==> forgiven(result) == result,
{
}

/// A submission fails exactly with the errors that do not pass: the kernel
/// being busy, full or interrupted submits nothing and is no failure, and
/// forgiving twice is forgiving once.
pub proof fn law_what_fails_a_submission(result: Result<usize, Option<i32>>)
    ensures
        forgiven(result) is Err <==> (result matches Err(errno) && errno != Some(16i32) && errno != Some(11i32) && errno
            != Some(4i32)),
        forgiven(result) is Err ==> forgiven(result) == result,
        forgiven(result) matches Ok(count) ==> count as int == if result is Ok {
            result->Ok_0 as int
        } else {
            0
        },
        forgiven(forgiven(result)) == forgiven(result),
{
}

} // verus!
