//! Changes to an observed list.

use vstd::prelude::*;

verus! {

/// One change to an observed list.
#[derive(Debug)]
pub enum VectorDiff<T> {
    /// Values were added at the end.
    Append {
        /// The values.
        values: Vec<T>,
    },
    /// All values were removed.
    Clear,
    /// A value was added at the front.
    PushFront {
        /// The value.
        value: T,
    },
    /// A value was added at the end.
    PushBack {
        /// The value.
        value: T,
    },
    /// The first value was removed.
    PopFront,
    /// The last value was removed.
    PopBack,
    /// A value was put in, and those from its index on moved up.
    Insert {
        /// The index.
        index: usize,
        /// The value.
        value: T,
    },
    /// A value was replaced.
    Replace {
        /// The index.
        index: usize,
        /// The new value.
        value: T,
    },
    /// A value was removed, and those after it moved down.
    Remove {
        /// The index.
        index: usize,
    },
    /// The list was cut.
    Truncate {
        /// The number of values that stay.
        length: usize,
    },
    /// The list was replaced.
    Reset {
        /// The new values.
        values: Vec<T>,
    },
}

impl<T> VectorDiff<T> {
    /// Whether the change can be made to a list: its index stands in the list.
    pub open spec fn fits(self, list: Seq<T>) -> bool {
        match self {
            VectorDiff::Insert { index, .. } => index <= list.len(),
            VectorDiff::Replace { index, .. } => index < list.len(),
            VectorDiff::Remove { index } => index < list.len(),
            _ => true,
        }
    }

    /// The list after the change.
    pub open spec fn applied(self, list: Seq<T>) -> Seq<T> {
        match self {
            VectorDiff::Append { values } => list + values@,
            VectorDiff::Clear => Seq::empty(),
            VectorDiff::PushFront { value } => seq![value] + list,
            VectorDiff::PushBack { value } => list.push(value),
            VectorDiff::PopFront => if list.len() == 0 {
                list
            } else {
                list.drop_first()
            },
            VectorDiff::PopBack => if list.len() == 0 {
                list
            } else {
                list.drop_last()
            },
            VectorDiff::Insert { index, value } => list.insert(index as int, value),
            VectorDiff::Replace { index, value } => list.update(index as int, value),
            VectorDiff::Remove { index } => list.remove(index as int),
            VectorDiff::Truncate { length } => if length < list.len() {
                list.take(length as int)
            } else {
                list
            },
            VectorDiff::Reset { values } => values@,
        }
    }

    /// The values that the change brings, in order.
    pub open spec fn brought(self) -> Seq<T> {
        match self {
            VectorDiff::Append { values } => values@,
            VectorDiff::Reset { values } => values@,
            VectorDiff::PushFront { value } => seq![value],
            VectorDiff::PushBack { value } => seq![value],
            VectorDiff::Insert { value, .. } => seq![value],
            VectorDiff::Replace { value, .. } => seq![value],
            _ => Seq::empty(),
        }
    }

    /// Appends the values that the change brings to a list.
    pub fn push_brought(self, list: &mut Vec<T>)
        ensures
            final(list)@ == old(list)@ + self.brought(),
    {
        match self {
            VectorDiff::Append { values } => {
                let mut values = values;
                list.append(&mut values);
            },
            VectorDiff::Reset { values } => {
                let mut values = values;
                list.append(&mut values);
            },
            VectorDiff::PushFront { value } => list.push(value),
            VectorDiff::PushBack { value } => list.push(value),
            VectorDiff::Insert { index: _, value } => list.push(value),
            VectorDiff::Replace { index: _, value } => list.push(value),
            VectorDiff::Clear => {},
            VectorDiff::PopFront => {},
            VectorDiff::PopBack => {},
            VectorDiff::Remove { index: _ } => {},
            VectorDiff::Truncate { length: _ } => {},
        }
        assert(list@ =~= old(list)@ + self.brought());
    }
}

/// A change that puts values in keeps all others, in their order.
pub proof fn added_values_stand_among_the_others<T>(diff: VectorDiff<T>, list: Seq<T>)
    ensures
        diff matches VectorDiff::Append { values } ==> {
            let now = diff.applied(list);
            &&& now.len() == list.len() + values@.len()
            &&& forall|i: int| 0 <= i < list.len() ==> #[trigger] now[i] == list[i]
            &&& forall|i: int|
                0 <= i < values@.len() ==> now[list.len() + i] == #[trigger] values@[i]
        },
        diff matches VectorDiff::PushBack { value } ==> {
            let now = diff.applied(list);
            &&& now.len() == list.len() + 1
            &&& forall|i: int| 0 <= i < list.len() ==> #[trigger] now[i] == list[i]
            &&& now[list.len() as int] == value
        },
        diff matches VectorDiff::PushFront { value } ==> {
            let now = diff.applied(list);
            &&& now.len() == list.len() + 1
            &&& now[0] == value
            &&& forall|i: int| 0 <= i < list.len() ==> now[i + 1] == #[trigger] list[i]
        },
        diff matches VectorDiff::Insert { index, value } ==> (diff.fits(list) <==> index
            <= list.len()) && (index <= list.len() ==> {
            let now = diff.applied(list);
            &&& now.len() == list.len() + 1
            &&& forall|i: int| 0 <= i < index ==> #[trigger] now[i] == list[i]
            &&& now[index as int] == value
            &&& forall|i: int| index <= i < list.len() ==> now[i + 1] == #[trigger] list[i]
        }),
        diff matches VectorDiff::Replace { index, value } ==> (diff.fits(list) <==> index
            < list.len()) && (index < list.len() ==> {
            let now = diff.applied(list);
            &&& now.len() == list.len()
            &&& now[index as int] == value
            &&& forall|i: int| 0 <= i < list.len() && i != index ==> #[trigger] now[i] == list[i]
        }),
        diff matches VectorDiff::Reset { values } ==> diff.applied(list) == values@,
{
}

/// A change that takes values out keeps all others, in their order.
pub proof fn removed_values_leave_the_others<T>(diff: VectorDiff<T>, list: Seq<T>)
    ensures
        diff is Clear ==> diff.applied(list).len() == 0,
        (diff is PopFront || diff is PopBack) && list.len() == 0 ==> diff.applied(list).len() == 0,
        diff is PopFront && list.len() > 0 ==> {
            let now = diff.applied(list);
            &&& now.len() == list.len() - 1
            &&& forall|i: int| 0 <= i < now.len() ==> #[trigger] now[i] == list[i + 1]
        },
        diff is PopBack && list.len() > 0 ==> {
            let now = diff.applied(list);
            &&& now.len() == list.len() - 1
            &&& forall|i: int| 0 <= i < now.len() ==> #[trigger] now[i] == list[i]
        },
        diff matches VectorDiff::Remove { index } ==> (diff.fits(list) <==> index < list.len()) && (
        index < list.len() ==> {
            let now = diff.applied(list);
            &&& now.len() == list.len() - 1
            &&& forall|i: int| 0 <= i < index ==> #[trigger] now[i] == list[i]
            &&& forall|i: int| index <= i < now.len() ==> #[trigger] now[i] == list[i + 1]
        }),
        diff matches VectorDiff::Truncate { length } ==> {
            let now = diff.applied(list);
            &&& length <= list.len() ==> now.len() == length
            &&& length >= list.len() ==> now.len() == list.len()
            &&& forall|i: int| 0 <= i < now.len() ==> #[trigger] now[i] == list[i]
        },
        !(diff is Insert || diff is Replace || diff is Remove) ==> diff.fits(list),
{
}

/// The values that a change brings are those that it holds: what it takes out or leaves is not among
/// them.
pub proof fn change_brings_the_values_it_holds<T>(diff: VectorDiff<T>)
    ensures
        diff matches VectorDiff::Append { values } ==> diff.brought() == values@,
        diff matches VectorDiff::Reset { values } ==> diff.brought() == values@,
        diff matches VectorDiff::PushFront { value } ==> diff.brought().len() == 1
            && diff.brought()[0] == value,
        diff matches VectorDiff::PushBack { value } ==> diff.brought().len() == 1
            && diff.brought()[0] == value,
        diff matches VectorDiff::Insert { value, .. } ==> diff.brought().len() == 1
            && diff.brought()[0] == value,
        diff matches VectorDiff::Replace { value, .. } ==> diff.brought().len() == 1
            && diff.brought()[0] == value,
        diff is Clear || diff is PopFront || diff is PopBack || diff is Remove || diff is Truncate
            ==> diff.brought().len() == 0,
{
}

} // verus!
