//! Whether this kernel can run the reactor at all.

use super::errno::{EMFILE, ENFILE, ENOMEM, ENOSYS, EPERM};
use vstd::prelude::*;
use vstd::string::{StrSliceExecFns, StringExecFns};

verus! {

/// What a probe of the rings found, as `io_uring::Probe` holds it.
#[verifier::external_type_specification]
#[verifier::external_body]
pub struct ExProbe(io_uring::Probe);

/// The operations a probe holds as supported, by their codes.
pub uninterp spec fn supported_by(probe: io_uring::Probe) -> Set<u8>;

/// Calls `io_uring::Probe::is_supported`, which looks one operation up in what
/// the kernel filled in and changes nothing.
#[verifier::external_body]
fn is_supported(probe: &io_uring::Probe, code: u8) -> (supported: bool)
    ensures
        supported == supported_by(*probe).contains(code),
{
    probe.is_supported(code)
}

/// An operation of the rings.
#[derive(Debug, Clone, Copy)]
pub struct Operation {
    /// Its name, without the kernel's prefix.
    pub name: &'static str,
    /// Its code.
    pub code: u8,
}

/// The operations the reactor cannot run without.
pub open spec fn required_operations() -> Seq<Operation> {
    seq![
        Operation { name: "NOP", code: 0 },
        Operation { name: "READV", code: 1 },
        Operation { name: "WRITEV", code: 2 },
        Operation { name: "FSYNC", code: 3 },
        Operation { name: "READ_FIXED", code: 4 },
        Operation { name: "WRITE_FIXED", code: 5 },
        Operation { name: "POLL_ADD", code: 6 },
        Operation { name: "POLL_REMOVE", code: 7 },
        Operation { name: "SENDMSG", code: 9 },
        Operation { name: "RECVMSG", code: 10 },
        Operation { name: "TIMEOUT", code: 11 },
        Operation { name: "TIMEOUT_REMOVE", code: 12 },
        Operation { name: "ACCEPT", code: 13 },
        Operation { name: "LINK_TIMEOUT", code: 15 },
        Operation { name: "CONNECT", code: 16 },
        Operation { name: "FALLOCATE", code: 17 },
        Operation { name: "OPENAT", code: 18 },
        Operation { name: "CLOSE", code: 19 },
        Operation { name: "STATX", code: 21 },
        Operation { name: "READ", code: 22 },
        Operation { name: "WRITE", code: 23 },
        Operation { name: "SEND", code: 26 },
        Operation { name: "RECV", code: 27 },
        Operation { name: "ASYNC_CANCEL", code: 14 },
    ]
}

/// The operations the reactor cannot run without.
pub fn uring_ops() -> (ops: Vec<Operation>)
    ensures
        ops@ == required_operations(),
{
    let ops: Vec<Operation> = vec![
        Operation { name: "NOP", code: 0 },
        Operation { name: "READV", code: 1 },
        Operation { name: "WRITEV", code: 2 },
        Operation { name: "FSYNC", code: 3 },
        Operation { name: "READ_FIXED", code: 4 },
        Operation { name: "WRITE_FIXED", code: 5 },
        Operation { name: "POLL_ADD", code: 6 },
        Operation { name: "POLL_REMOVE", code: 7 },
        Operation { name: "SENDMSG", code: 9 },
        Operation { name: "RECVMSG", code: 10 },
        Operation { name: "TIMEOUT", code: 11 },
        Operation { name: "TIMEOUT_REMOVE", code: 12 },
        Operation { name: "ACCEPT", code: 13 },
        Operation { name: "LINK_TIMEOUT", code: 15 },
        Operation { name: "CONNECT", code: 16 },
        Operation { name: "FALLOCATE", code: 17 },
        Operation { name: "OPENAT", code: 18 },
        Operation { name: "CLOSE", code: 19 },
        Operation { name: "STATX", code: 21 },
        Operation { name: "READ", code: 22 },
        Operation { name: "WRITE", code: 23 },
        Operation { name: "SEND", code: 26 },
        Operation { name: "RECV", code: 27 },
        Operation { name: "ASYNC_CANCEL", code: 14 },
    ];
    assert(ops@ =~= required_operations());
    ops
}

/// An error of the operating system: its number, where it has one, and how it
/// reads.
#[derive(Debug)]
pub struct OsError {
    /// The error number.
    pub errno: Option<i32>,
    /// The error as text.
    pub text: String,
}

/// Why this kernel cannot run the reactor.
#[derive(Debug)]
pub enum UringUnsupported {
    /// Creating a ring failed.
    SetupFailed(OsError),
    /// The ring was created, but registering a probe against it failed.
    ProbeFailed(OsError),
    /// The ring works and some operations the reactor submits are missing.
    MissingOps(Vec<&'static str>),
}

/// The names of the operations that are not supported, in order.
pub open spec fn missing_from(ops: Seq<Operation>, supported: Set<u8>) -> Seq<&'static str>
    decreases ops.len(),
{
    if ops.len() == 0 {
        Seq::empty()
    } else {
        let before = missing_from(ops.drop_last(), supported);
        if supported.contains(ops.last().code) {
            before
        } else {
            before.push(ops.last().name)
        }
    }
}

/// The names of the operations a probe does not hold as supported.
pub fn missing_operations(ops: &Vec<Operation>, probe: &io_uring::Probe) -> (missing: Vec<&'static str>)
    ensures
        missing@ == missing_from(ops@, supported_by(*probe)),
{
    let mut missing: Vec<&'static str> = Vec::new();
    let mut i: usize = 0;
    while i < ops.len()
        invariant
            i <= ops@.len(),
            missing@ == missing_from(ops@.take(i as int), supported_by(*probe)),
        decreases ops@.len() - i,
    {
        let supported: bool = is_supported(probe, ops[i].code);
        proof {
            assert(ops@.take(i + 1).drop_last() =~= ops@.take(i as int));
            assert(ops@.take(i + 1).last() == ops@[i as int]);
        }
        if !supported {
            missing.push(ops[i].name);
        }
        i = i + 1;
    }
    assert(ops@.take(i as int) =~= ops@);
    missing
}

/// Checks the kernel implements every operation in `ops`, from what creating a
/// ring and registering a probe against it came to.
pub fn check_supported_operations(
    ops: &Vec<Operation>,
    probed: Result<Result<io_uring::Probe, OsError>, OsError>,
) -> (verdict: Result<(), UringUnsupported>)
    ensures
        match probed {
            Err(setup) => verdict == Err::<(), _>(UringUnsupported::SetupFailed(setup)),
            Ok(Err(probe)) => verdict == Err::<(), _>(UringUnsupported::ProbeFailed(probe)),
            Ok(Ok(probe)) => {
                let missing = missing_from(ops@, supported_by(probe));
                &&& verdict is Ok <==> missing.len() == 0
                &&& verdict matches Err(why) ==> why is MissingOps && why->MissingOps_0@ == missing
            },
        },
{
    let probe: io_uring::Probe = match probed {
        Err(setup) => {
            return Err(UringUnsupported::SetupFailed(setup));
        },
        Ok(Err(err)) => {
            return Err(UringUnsupported::ProbeFailed(err));
        },
        Ok(Ok(probe)) => probe,
    };
    let missing: Vec<&'static str> = missing_operations(ops, &probe);
    if missing.len() == 0 {
        Ok(())
    } else {
        Err(UringUnsupported::MissingOps(missing))
    }
}

/// The names with the kernel's prefix, with commas between them.
pub open spec fn listed(ops: Seq<&'static str>) -> Seq<char>
    decreases ops.len(),
{
    if ops.len() == 0 {
        Seq::empty()
    } else if ops.len() == 1 {
        "IORING_OP_"@ + ops[0]@
    } else {
        listed(ops.drop_last()) + ", "@ + "IORING_OP_"@ + ops.last()@
    }
}

/// What an administrator can do about an error number from creating a ring.
/// `disabled` is what `kernel.io_uring_disabled` holds, where it is there.
pub open spec fn setup_hint(errno: Option<i32>, disabled: Option<u8>) -> Seq<char> {
    if errno == Some(ENOSYS) {
        ". The kernel does not implement io_uring at all; glommio's supported minimum is 5.8"@
    } else if errno == Some(EPERM) {
        ". io_uring is present but not permitted for this process"@ + if disabled == Some(1u8) {
            ", because kernel.io_uring_disabled=1 restricts it to processes with CAP_SYS_ADMIN"@
        } else if disabled == Some(2u8) {
            ", because kernel.io_uring_disabled=2 disables it"@
        } else {
            ". A seccomp policy blocking io_uring_setup is the usual cause; container runtimes often ship one"@
        }
    } else {
        Seq::empty()
    }
}

impl UringUnsupported {
    /// The reason as text.
    pub open spec fn text(&self, disabled: Option<u8>) -> Seq<char> {
        match *self {
            UringUnsupported::SetupFailed(err) => "failed to create an io_uring: "@ + err.text@ + setup_hint(
                err.errno,
                disabled,
            ),
            UringUnsupported::ProbeFailed(err) => "failed to register a probe against io_uring: "@ + err.text@,
            UringUnsupported::MissingOps(ops) => "the kernel's io_uring is missing operations glommio submits: "@
                + listed(ops@) + ". glommio's supported minimum is 5.8"@,
        }
    }

    /// The reason as text. `disabled` is what `kernel.io_uring_disabled`
    /// holds, where it is there: distributions use it to restrict the rings
    /// independently of the kernel version.
    pub fn message(&self, disabled: Option<u8>) -> (message: String)
        ensures
            message@ == self.text(disabled),
    {
        let mut message: String = String::new();
        match self {
            UringUnsupported::SetupFailed(err) => {
                message.append("failed to create an io_uring: ");
                message.append(err.text.as_str());
                append_hint(&mut message, err.errno, disabled);
            },
            UringUnsupported::ProbeFailed(err) => {
                message.append("failed to register a probe against io_uring: ");
                message.append(err.text.as_str());
            },
            UringUnsupported::MissingOps(ops) => {
                message.append("the kernel's io_uring is missing operations glommio submits: ");
                append_listed(&mut message, ops);
                message.append(". glommio's supported minimum is 5.8");
            },
        }
        assert(message@ =~= self.text(disabled));
        message
    }

    /// Whether the probe might succeed if we tried again: it failed for want
    /// of a descriptor or of memory.
    pub open spec fn transient(&self) -> bool {
        let errno = match *self {
            UringUnsupported::SetupFailed(err) => err.errno,
            UringUnsupported::ProbeFailed(err) => err.errno,
            UringUnsupported::MissingOps(_) => None,
        };
        errno == Some(EMFILE) || errno == Some(ENFILE) || errno == Some(ENOMEM)
    }

    /// Whether the probe might succeed if we tried again.
    pub fn is_transient(&self) -> (transient: bool)
        ensures
            transient == self.transient(),
    {
        let errno: Option<i32> = match self {
            UringUnsupported::SetupFailed(err) => err.errno,
            UringUnsupported::ProbeFailed(err) => err.errno,
            UringUnsupported::MissingOps(_) => None,
        };
        match errno {
            Some(e) => e == EMFILE || e == ENFILE || e == ENOMEM,
            None => false,
        }
    }
}

fn append_hint(message: &mut String, errno: Option<i32>, disabled: Option<u8>)
    ensures
        final(message)@ == old(message)@ + setup_hint(errno, disabled),
{
    let number: i32 = match errno {
        Some(number) => number,
        None => 0,
    };
    if number == ENOSYS {
        message.append(
            ". The kernel does not implement io_uring at all; glommio's supported minimum is 5.8",
        );
    } else if number == EPERM {
        message.append(". io_uring is present but not permitted for this process");
        match disabled {
            Some(1) => {
                message.append(
                    ", because kernel.io_uring_disabled=1 restricts it to processes with CAP_SYS_ADMIN",
                );
            },
            Some(2) => {
                message.append(", because kernel.io_uring_disabled=2 disables it");
            },
            _ => {
                message.append(
                    ". A seccomp policy blocking io_uring_setup is the usual cause; container runtimes often ship one",
                );
            },
        }
    }
    assert(message@ =~= old(message)@ + setup_hint(errno, disabled));
}

fn append_listed(message: &mut String, ops: &Vec<&'static str>)
    ensures
        final(message)@ == old(message)@ + listed(ops@),
{
    let mut i: usize = 0;
    assert(message@ =~= old(message)@ + listed(ops@.take(0)));
    while i < ops.len()
        invariant
            i <= ops@.len(),
            message@ == old(message)@ + listed(ops@.take(i as int)),
        decreases ops@.len() - i,
    {
        let ghost before = message@;
        if i > 0 {
            message.append(", ");
        }
        message.append("IORING_OP_");
        message.append(ops[i]);
        proof {
            let next = ops@.take(i + 1);
            assert(next.drop_last() =~= ops@.take(i as int));
            assert(next.last() == ops@[i as int]);
            assert(message@ =~= old(message)@ + listed(next));
        }
        i = i + 1;
    }
    assert(ops@.take(i as int) =~= ops@);
}

/// The kernel's verdict, once one has been reached. None means it has not
/// been, which is not the same as not having asked: an answer that might
/// change is not kept.
#[derive(Debug)]
pub struct SupportCache {
    verdict: Option<Result<(), String>>,
}

impl SupportCache {
    /// The verdict, where there is one: the reason is text.
    pub closed spec fn spec_verdict(&self) -> Option<Result<(), Seq<char>>> {
        match self.verdict {
            None => None,
            Some(Ok(())) => Some(Ok(())),
            Some(Err(reason)) => Some(Err(reason@)),
        }
    }

    /// No verdict yet.
    pub fn new() -> (cache: Self)
        ensures
            cache.spec_verdict() is None,
    {
        SupportCache { verdict: None }
    }

    /// The verdict, where there is one. Without one the kernel has to be
    /// asked.
    pub fn cached(&self) -> (verdict: Option<Result<(), String>>)
        ensures
            verdict is None <==> self.spec_verdict() is None,
            verdict matches Some(Ok(())) ==> self.spec_verdict() == Some(Ok::<(), Seq<char>>(())),
            verdict matches Some(Err(reason)) ==> self.spec_verdict() == Some(Err::<(), _>(reason@)),
    {
        match &self.verdict {
            None => None,
            Some(Ok(())) => Some(Ok(())),
            Some(Err(reason)) => Some(Err(reason.clone())),
        }
    }

    /// Takes in what the kernel answered and says whether it can run the
    /// reactor. Only a definitive answer is kept: a probe that failed for want
    /// of a descriptor is tried again.
    pub fn check_uring_support(
        &mut self,
        answer: Result<(), UringUnsupported>,
        disabled: Option<u8>,
    ) -> (verdict: Result<(), String>)
        requires
            old(self).spec_verdict() is None,
        ensures
            verdict is Ok <==> answer is Ok,
            verdict matches Err(reason) ==> reason@ == answer->Err_0.text(disabled),
            final(self).spec_verdict() == match answer {
                Ok(()) => Some(Ok::<(), Seq<char>>(())),
                Err(why) => if why.transient() {
                    None
                } else {
                    Some(Err::<(), _>(why.text(disabled)))
                },
            },
    {
        match answer {
            Ok(()) => {
                self.verdict = Some(Ok(()));
                Ok(())
            },
            Err(why) => {
                let reason: String = why.message(disabled);
                if !why.is_transient() {
                    self.verdict = Some(Err(reason.clone()));
                }
                Err(reason)
            },
        }
    }
}

/// A blank, as Unicode counts them.
pub open spec fn is_blank(c: char) -> bool {
    let code = c as u32;
    ||| 0x09 <= code <= 0x0d
    ||| code == 0x20
    ||| code == 0x85
    ||| code == 0xa0
    ||| code == 0x1680
    ||| 0x2000 <= code <= 0x200a
    ||| code == 0x2028
    ||| code == 0x2029
    ||| code == 0x202f
    ||| code == 0x205f
    ||| code == 0x3000
}

/// The number a run of decimal digits writes, or nothing where it writes
/// none that fits a byte.
pub open spec fn decimal(digits: Seq<char>) -> Option<int>
    decreases digits.len(),
{
    if digits.len() == 0 {
        Some(0)
    } else {
        let code = digits.last() as u32;
        match decimal(digits.drop_last()) {
            Some(high) => if 0x30 <= code <= 0x39 && 10 * high + (code - 0x30) <= u8::MAX {
                Some(10 * high + (code - 0x30))
            } else {
                None
            },
            None => None,
        }
    }
}

/// The setting a text holds between blanks.
pub open spec fn setting(text: Seq<char>) -> Option<int> {
    let number = if text.len() > 0 && text[0] == '+' {
        text.skip(1)
    } else {
        text
    };
    if number.len() == 0 {
        None
    } else {
        decimal(number)
    }
}

/// `text` without the blanks it begins and ends with.
pub open spec fn trimmed(text: Seq<char>, inner: Seq<char>) -> bool {
    exists|from: int, to: int|
        #![trigger text.subrange(from, to)]
        0 <= from <= to <= text.len() && inner == text.subrange(from, to) && (forall|i: int|
            0 <= i < from ==> is_blank(#[trigger] text[i])) && (forall|i: int|
            to <= i < text.len() ==> is_blank(#[trigger] text[i])) && (inner.len() > 0 ==> !is_blank(inner[0])
            && !is_blank(inner.last()))
}

/// Reads what `kernel.io_uring_disabled` holds. The kernel writes a decimal
/// number and a line feed.
pub fn parse_disabled(text: &str) -> (disabled: Option<u8>)
    ensures
        exists|inner: Seq<char>| #[trigger]
            trimmed(text@, inner) && match disabled {
                Some(value) => setting(inner) == Some(value as int),
                None => setting(inner) is None,
            },
{
    let count: usize = text.unicode_len();
    let mut from: usize = 0;
    while from < count && blank(text.get_char(from))
        invariant
            count == text@.len(),
            from <= count,
            forall|i: int| 0 <= i < from ==> is_blank(#[trigger] text@[i]),
        decreases count - from,
    {
        from = from + 1;
    }
    let mut to: usize = count;
    while to > from && blank(text.get_char(to - 1))
        invariant
            count == text@.len(),
            from <= to <= count,
            forall|i: int| to <= i < text@.len() ==> is_blank(#[trigger] text@[i]),
        decreases to,
    {
        to = to - 1;
    }
    let ghost inner = text@.subrange(from as int, to as int);
    assert(trimmed(text@, inner));
    let first: usize = if from < to && text.get_char(from) == '+' {
        from + 1
    } else {
        from
    };
    if first == to {
        return None;
    }
    let ghost number = text@.subrange(first as int, to as int);
    let mut value: u8 = 0;
    let mut i: usize = first;
    proof {
        assert(inner.skip(0) =~= inner);
        assert(inner.skip(first - from) =~= number);
        assert(number.take(0) =~= Seq::<char>::empty());
    }
    while i < to
        invariant
            from <= first <= i <= to <= count,
            count == text@.len(),
            number == text@.subrange(first as int, to as int),
            trimmed(text@, inner),
            setting(inner) == decimal(number),
            decimal(number.take(i - first)) == Some(value as int),
        decreases to - i,
    {
        let code: u32 = text.get_char(i) as u32;
        let ghost next = number.take(i - first + 1);
        proof {
            assert(next.drop_last() =~= number.take(i - first));
            assert(next.last() == text@[i as int]);
        }
        if code < 0x30 || code > 0x39 {
            proof {
                lemma_decimal_stays_none(number, i - first + 1);
            }
            return None;
        }
        let wide: u32 = 10 * value as u32 + (code - 0x30);
        if wide > u8::MAX as u32 {
            proof {
                lemma_decimal_stays_none(number, i - first + 1);
            }
            return None;
        }
        value = wide as u8;
        i = i + 1;
    }
    assert(number.take(i - first) =~= number);
    Some(value)
}

fn blank(c: char) -> (blank: bool)
    ensures
        blank == is_blank(c),
{
    let code: u32 = c as u32;
    (0x09 <= code && code <= 0x0d) || code == 0x20 || code == 0x85 || code == 0xa0 || code == 0x1680 || (0x2000 <= code
        && code <= 0x200a) || code == 0x2028 || code == 0x2029 || code == 0x202f || code == 0x205f || code == 0x3000
}

/// What is not a number at some point does not become one further on.
proof fn lemma_decimal_stays_none(digits: Seq<char>, at: int)
    requires
        0 <= at <= digits.len(),
        decimal(digits.take(at)) is None,
    ensures
        decimal(digits) is None,
    decreases digits.len(),
{
    if at == digits.len() {
        assert(digits.take(at) =~= digits);
    } else {
        assert(digits.drop_last().take(at) =~= digits.take(at));
        lemma_decimal_stays_none(digits.drop_last(), at);
    }
}

/// What is missing is what the kernel does not support, in order: of a single
/// operation its name, unless it is supported, and of two lists what is missing
/// of the one and then of the other. Nothing is missing exactly where every
/// operation is supported.
pub proof fn law_what_is_missing(op: Operation, a: Seq<Operation>, b: Seq<Operation>, supported: Set<u8>)
    ensures
        missing_from(Seq::empty(), supported).len() == 0,
        supported.contains(op.code) ==> missing_from(seq![op], supported).len() == 0,
        !supported.contains(op.code) ==> missing_from(seq![op], supported) == seq![op.name],
        missing_from(a + b, supported) == missing_from(a, supported) + missing_from(b, supported),
        missing_from(b, supported).len() == 0 <==> forall|i: int|
            0 <= i < b.len() ==> supported.contains((#[trigger] b[i]).code),
    decreases b.len(),
{
    assert(seq![op].drop_last() =~= Seq::<Operation>::empty());
    assert(missing_from(seq![op].drop_last(), supported) =~= Seq::<&'static str>::empty());
    assert(Seq::<&'static str>::empty().push(op.name) =~= seq![op.name]);
    if b.len() == 0 {
        assert(a + b =~= a);
        assert(missing_from(a, supported) + missing_from(b, supported) =~= missing_from(a, supported));
    } else {
        let fewer = b.drop_last();
        law_what_is_missing(op, a, fewer, supported);
        assert((a + b).drop_last() =~= a + fewer);
        assert((a + b).last() == b.last());
        assert(missing_from(a + b, supported) =~= missing_from(a, supported) + missing_from(b, supported));
        if missing_from(b, supported).len() == 0 {
            assert forall|i: int| 0 <= i < b.len() implies supported.contains((#[trigger] b[i]).code) by {
                if i < fewer.len() {
                    assert(b[i] == fewer[i]);
                }
            }
        }
        if forall|i: int| 0 <= i < b.len() ==> supported.contains((#[trigger] b[i]).code) {
            assert(supported.contains(b[b.len() - 1].code));
            assert forall|i: int| 0 <= i < fewer.len() implies supported.contains((#[trigger] fewer[i]).code) by {
                assert(b[i] == fewer[i]);
            }
        }
    }
}

/// Every operation that is missing is listed, by its name in the kernel, and
/// nothing but a comma and a blank stands between two of them.
pub proof fn law_what_is_missing_is_listed(op: &'static str, a: Seq<&'static str>, b: Seq<&'static str>)
    requires
        a.len() > 0,
        b.len() > 0,
    ensures
        listed(Seq::empty()).len() == 0,
        listed(seq![op]) == seq!['I', 'O', 'R', 'I', 'N', 'G', '_', 'O', 'P', '_'] + op@,
        listed(a + b) == listed(a) + seq![',', ' '] + listed(b),
    decreases b.len(),
{
    reveal_strlit("IORING_OP_");
    reveal_strlit(", ");
    assert("IORING_OP_"@ =~= seq!['I', 'O', 'R', 'I', 'N', 'G', '_', 'O', 'P', '_']);
    assert(", "@ =~= seq![',', ' ']);
    let fewer = b.drop_last();
    assert((a + b).drop_last() =~= a + fewer);
    assert((a + b).last() == b.last());
    if b.len() == 1 {
        assert(a + fewer =~= a);
        assert(b[0] == b.last());
        assert(listed(a + b) =~= listed(a) + seq![',', ' '] + listed(b));
    } else {
        law_what_is_missing_is_listed(op, a, fewer);
        assert(listed(a + b) =~= listed(a) + seq![',', ' '] + listed(b));
    }
}

/// What may pass is a want of descriptors, in the process or in the system, or
/// of memory, whichever step it came up in; every other answer stands.
pub proof fn law_what_may_pass(errno: Option<i32>, why: UringUnsupported)
    requires
        why matches UringUnsupported::SetupFailed(err) ==> err.errno == errno,
        why matches UringUnsupported::ProbeFailed(err) ==> err.errno == errno,
    ensures
        why is MissingOps ==> !why.transient(),
        !(why is MissingOps) ==> (why.transient() <==> errno == Some(12i32) || errno == Some(23i32) || errno == Some(24i32)),
{
}

/// There is a hint exactly for a kernel without rings and for one that does
/// not permit them, and for the latter it depends on what the administrator
/// set.
pub proof fn law_when_there_is_a_hint(errno: Option<i32>, disabled: Option<u8>, other: Option<u8>)
    ensures
        setup_hint(errno, disabled).len() > 0 <==> errno == Some(38i32) || errno == Some(1i32),
        errno != Some(1i32) ==> setup_hint(errno, disabled) == setup_hint(errno, other),
        errno == Some(1i32) && disabled == Some(1u8) && other != Some(1u8) ==> setup_hint(errno, disabled) != setup_hint(
            errno,
            other,
        ),
        errno == Some(1i32) && disabled == Some(2u8) && other != Some(2u8) ==> setup_hint(errno, disabled) != setup_hint(
            errno,
            other,
        ),
{
    reveal_strlit(". The kernel does not implement io_uring at all; glommio's supported minimum is 5.8");
    reveal_strlit(". io_uring is present but not permitted for this process");
    reveal_strlit(", because kernel.io_uring_disabled=1 restricts it to processes with CAP_SYS_ADMIN");
    reveal_strlit(", because kernel.io_uring_disabled=2 disables it");
    reveal_strlit(". A seccomp policy blocking io_uring_setup is the usual cause; container runtimes often ship one");
}

/// A number is read as it is written: nothing is zero, a digit more makes ten
/// times as much and the digit, as long as that fits a byte, and what is not a
/// digit, or does not fit, makes no number of what it stands in.
pub proof fn law_digits_count(digits: Seq<char>, last: char)
    ensures
        decimal(Seq::empty()) == Some(0int),
        decimal(digits) matches Some(value) ==> 0 <= value <= 255,
        decimal(digits) is None ==> decimal(digits.push(last)) is None,
        decimal(digits) matches Some(value) ==> {
            let digit = last as u32 as int - '0' as u32 as int;
            decimal(digits.push(last)) == if 0 <= digit <= 9 && value * 10 + digit < 256 {
                Some(value * 10 + digit)
            } else {
                None
            }
        },
    decreases digits.len(),
{
    assert(digits.push(last).drop_last() =~= digits);
    assert(digits.push(last).last() == last);
    if digits.len() > 0 {
        law_digits_count(digits.drop_last(), digits.last());
        assert(digits.drop_last().push(digits.last()) =~= digits);
    }
}

/// Leading zeroes and one plus change nothing; without a digit there is no
/// setting.
pub proof fn law_what_may_precede_a_setting(digits: Seq<char>)
    ensures
        decimal(seq!['0'] + digits) == decimal(digits),
        digits.len() > 0 && digits[0] != '+' ==> setting(seq!['+'] + digits) == setting(digits),
        digits.len() > 0 && digits[0] != '+' ==> setting(digits) == decimal(digits),
        setting(Seq::empty()) is None,
        setting(seq!['+']) is None,
    decreases digits.len(),
{
    assert((seq!['+'] + digits).skip(1) =~= digits);
    let longer = seq!['0'] + digits;
    if digits.len() == 0 {
        assert(longer.drop_last() =~= Seq::<char>::empty());
        assert(decimal(longer.drop_last()) == Some(0int));
        assert(longer.last() == '0');
    } else {
        law_what_may_precede_a_setting(digits.drop_last());
        assert(longer.drop_last() =~= seq!['0'] + digits.drop_last());
        assert(longer.last() == digits.last());
    }
}

/// A text is trimmed in one way only, and blanks around it do not matter to
/// what is left.
pub proof fn law_trimming_is_unique(text: Seq<char>, one: Seq<char>, other: Seq<char>)
    requires
        trimmed(text, one),
        trimmed(text, other),
    ensures
        one == other,
{
    let (from, to) = choose|from: int, to: int|
        #![trigger text.subrange(from, to)]
        0 <= from <= to <= text.len() && one == text.subrange(from, to) && (forall|i: int|
            0 <= i < from ==> is_blank(#[trigger] text[i])) && (forall|i: int|
            to <= i < text.len() ==> is_blank(#[trigger] text[i])) && (one.len() > 0 ==> !is_blank(one[0]) && !is_blank(
            one.last(),
        ));
    let (start, end) = choose|start: int, end: int|
        #![trigger text.subrange(start, end)]
        0 <= start <= end <= text.len() && other == text.subrange(start, end) && (forall|i: int|
            0 <= i < start ==> is_blank(#[trigger] text[i])) && (forall|i: int|
            end <= i < text.len() ==> is_blank(#[trigger] text[i])) && (other.len() > 0 ==> !is_blank(other[0]) && !is_blank(
            other.last(),
        ));
    if one.len() > 0 {
        assert(one[0] == text[from]);
        assert(one.last() == text[to - 1]);
    }
    if other.len() > 0 {
        assert(other[0] == text[start]);
        assert(other.last() == text[end - 1]);
    }
    assert(one =~= other);
}

/// Blanks among the first characters are the blank itself and what moves the
/// carriage; no digit and no sign is one.
pub proof fn law_what_is_blank(c: char)
    ensures
        (c as u32) < 0x80 ==> (is_blank(c) <==> c == ' ' || c == '\n' || c == '\r' || c == '\t' || c as u32 == 0x0b || c as u32
            == 0x0c),
{
}

} // verus!
