//! Where the parts of a task lie in its allocation.

use vstd::arithmetic::power2::is_pow2;
use vstd::prelude::*;

verus! {

/// How much memory a value takes and how it is aligned.
#[derive(Debug, Clone, Copy, PartialEq, Eq, Structural)]
pub struct MemoryLayout {
    /// Bytes.
    pub size: usize,
    /// A power of two.
    pub align: usize,
}

impl MemoryLayout {
    /// The alignment is one that memory can have.
    pub open spec fn wf(&self) -> bool {
        is_pow2(self.align as int)
    }
}

/// Memory layout of a task: the header, then the schedule function, then the
/// future, whose place its output takes over.
#[derive(Debug, Clone, Copy, PartialEq, Eq, Structural)]
pub struct TaskLayout {
    /// Memory layout of the whole task.
    pub layout: MemoryLayout,
    /// Offset into the task at which the schedule function is stored.
    pub offset_s: usize,
    /// Offset into the task at which the future is stored.
    pub offset_f: usize,
    /// Offset into the task at which the output is stored.
    pub offset_r: usize,
}

/// The least multiple of `align` that is no less than `value`.
pub open spec fn aligned_up(value: int, align: int) -> int {
    ((value + align - 1) / align) * align
}

/// Rounding up moves a value by less than the alignment.
pub proof fn lemma_aligned_up(value: int, align: int)
    requires
        align > 0,
    ensures
        aligned_up(value, align) % align == 0,
        value <= aligned_up(value, align) < value + align,
        forall|other: int| value <= other && #[trigger] (other % align) == 0 ==> aligned_up(value, align) <= other,
{
    let q = (value + align - 1) / align;
    vstd::arithmetic::div_mod::lemma_fundamental_div_mod(value + align - 1, align);
    vstd::arithmetic::div_mod::lemma_mod_bound(value + align - 1, align);
    vstd::arithmetic::div_mod::lemma_mod_multiples_basic(q, align);
    assert(q * align == align * q) by (nonlinear_arith);
    assert forall|other: int| value <= other && #[trigger] (other % align) == 0 implies aligned_up(value, align)
        <= other by {
        vstd::arithmetic::div_mod::lemma_fundamental_div_mod(other, align);
        let k = other / align;
        assert(k * align == align * k) by (nonlinear_arith);
        if other < q * align {
            assert(k < q) by (nonlinear_arith)
                requires
                    k * align < q * align,
                    align > 0,
            ;
            assert(k * align <= (q - 1) * align) by (nonlinear_arith)
                requires
                    k <= q - 1,
                    align > 0,
            ;
            assert((q - 1) * align == q * align - align) by (nonlinear_arith);
        }
    }
}

/// A layout for `layout` followed by `next`, and the offset at which `next`
/// lies. `None` when it takes more bytes than can be addressed.
pub fn extend(layout: MemoryLayout, next: MemoryLayout) -> (extended: Option<(MemoryLayout, usize)>)
    requires
        layout.wf(),
        next.wf(),
    ensures
        extended is Some <==> aligned_up(layout.size as int, next.align as int) + next.size <= usize::MAX,
        extended matches Some((whole, offset)) ==> {
            &&& whole.wf()
            &&& offset == aligned_up(layout.size as int, next.align as int)
            &&& whole.size == offset + next.size
            &&& whole.align == if layout.align >= next.align {
                layout.align
            } else {
                next.align
            }
        },
{
    proof {
        reveal_with_fuel(is_pow2, 1);
        lemma_aligned_up(layout.size as int, next.align as int);
    }
    let past: usize = layout.size % next.align;
    let pad: usize = if past == 0 {
        0
    } else {
        next.align - past
    };
    proof {
        let (size, align) = (layout.size as int, next.align as int);
        vstd::arithmetic::div_mod::lemma_fundamental_div_mod(size, align);
        vstd::arithmetic::div_mod::lemma_mod_bound(size, align);
        let k = size / align;
        assert(align * k == k * align) by (nonlinear_arith);
        if past == 0 {
            vstd::arithmetic::div_mod::lemma_fundamental_div_mod_converse(size + align - 1, align, k, align - 1);
        } else {
            assert((k + 1) * align == k * align + align) by (nonlinear_arith);
            vstd::arithmetic::div_mod::lemma_fundamental_div_mod_converse(
                size + align - 1,
                align,
                k + 1,
                past - 1,
            );
        }
        assert(aligned_up(size, align) == size + pad);
    }
    let offset: usize = match layout.size.checked_add(pad) {
        Some(offset) => offset,
        None => {
            return None;
        },
    };
    let size: usize = match offset.checked_add(next.size) {
        Some(size) => size,
        None => {
            return None;
        },
    };
    let align: usize = if layout.align >= next.align {
        layout.align
    } else {
        next.align
    };
    Some((MemoryLayout { size, align }, offset))
}

fn greater(a: usize, b: usize) -> (greatest: usize)
    ensures
        greatest == if a >= b {
            a
        } else {
            b
        },
{
    if a >= b {
        a
    } else {
        b
    }
}

/// The parts of a task lie in order, aligned, and none reaches into the next.
pub open spec fn lies_apart(
    task: TaskLayout,
    header: MemoryLayout,
    schedule: MemoryLayout,
    future: MemoryLayout,
    output: MemoryLayout,
) -> bool {
    &&& header.size <= task.offset_s
    &&& task.offset_s + schedule.size <= task.offset_f
    &&& task.offset_f == task.offset_r
    &&& task.offset_f + future.size <= task.layout.size
    &&& task.offset_r + output.size <= task.layout.size
    &&& task.offset_s as int % schedule.align as int == 0
    &&& task.offset_f as int % future.align as int == 0
    &&& task.offset_r as int % output.align as int == 0
    &&& header.align <= task.layout.align
    &&& schedule.align <= task.layout.align
    &&& future.align <= task.layout.align
    &&& output.align <= task.layout.align
}

/// A future of this many bytes or more is not moved into its task.
pub const BOXED_SIZE: usize = 2048;

/// What a future takes up in its task: its own memory, or a pointer to it
/// where it is too large to be moved.
pub fn future_layout(future: MemoryLayout, pointer: MemoryLayout) -> (held: MemoryLayout)
    ensures
        held == if future.size >= BOXED_SIZE {
            pointer
        } else {
            future
        },
        future.size < 2048 ==> held == future,
        future.size >= 2048 ==> held == pointer,
{
    if future.size >= BOXED_SIZE {
        pointer
    } else {
        future
    }
}

/// The memory layout for a task, or `None` when it takes more bytes than can
/// be addressed.
pub fn task_layout(
    header: MemoryLayout,
    schedule: MemoryLayout,
    future: MemoryLayout,
    output: MemoryLayout,
) -> (task: Option<TaskLayout>)
    requires
        header.wf(),
        schedule.wf(),
        future.wf(),
        output.wf(),
    ensures
        ({
            let offset_s = aligned_up(header.size as int, schedule.align as int);
            let union_align = if future.align >= output.align {
                future.align as int
            } else {
                output.align as int
            };
            let union_size = if future.size >= output.size {
                future.size as int
            } else {
                output.size as int
            };
            let offset_f = aligned_up(offset_s + schedule.size, union_align);
            &&& task is Some <==> offset_f + union_size <= usize::MAX
            &&& task matches Some(task) ==> {
                &&& task.offset_s == offset_s
                &&& task.offset_f == offset_f
                &&& task.offset_r == offset_f
                &&& task.layout.size == offset_f + union_size
                &&& task.layout.wf()
                &&& lies_apart(task, header, schedule, future, output)
            }
        }),
{
    // The future's place is taken over by its output, so it is as large and
    // as aligned as either needs.
    let union = MemoryLayout {
        size: greater(future.size, output.size),
        align: greater(future.align, output.align),
    };
    proof {
        reveal_with_fuel(is_pow2, 1);
        lemma_aligned_up(header.size as int, schedule.align as int);
        lemma_aligned_up(
            aligned_up(header.size as int, schedule.align as int) + schedule.size,
            union.align as int,
        );
    }
    let (layout, offset_s): (MemoryLayout, usize) = match extend(header, schedule) {
        Some(extended) => extended,
        None => {
            return None;
        },
    };
    let (layout, offset_union): (MemoryLayout, usize) = match extend(layout, union) {
        Some(extended) => extended,
        None => {
            return None;
        },
    };
    proof {
        lemma_pow2_divides(offset_union as int, future.align as int, union.align as int);
        lemma_pow2_divides(offset_union as int, output.align as int, union.align as int);
    }
    Some(TaskLayout { layout, offset_s, offset_f: offset_union, offset_r: offset_union })
}

/// What is aligned to a power of two is aligned to every lower one.
proof fn lemma_pow2_divides(value: int, low: int, high: int)
    requires
        is_pow2(low),
        is_pow2(high),
        low <= high,
        value % high == 0,
    ensures
        value % low == 0,
    decreases high,
{
    reveal_with_fuel(is_pow2, 2);
    if low < high {
        vstd::arithmetic::div_mod::lemma_fundamental_div_mod(value, high);
        let half = high / 2;
        let k = value / high;
        assert(value == (2 * k) * half) by (nonlinear_arith)
            requires
                value == high * k,
                high == 2 * half,
        ;
        vstd::arithmetic::div_mod::lemma_mod_multiples_basic(2 * k, half);
        lemma_pow2_half_is_no_less(low, high);
        lemma_pow2_divides(value, low, half);
    }
}

/// Between a power of two and its half there is no other.
proof fn lemma_pow2_half_is_no_less(low: int, high: int)
    requires
        is_pow2(low),
        is_pow2(high),
        low < high,
    ensures
        low <= high / 2,
    decreases high,
{
    reveal_with_fuel(is_pow2, 2);
    if low > 1 {
        lemma_pow2_half_is_no_less(low / 2, high / 2);
    }
}

} // verus!
