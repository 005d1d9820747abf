//! The state of a week view: the selected date, and one column of notes for
//! each day of its week, Monday first.

use vstd::prelude::*;

use crate::date::{
    CalendarDate, LAST_DAY, Weekday, compute_last_monday, is_supported_day, monday_of_day,
    weekday_of_day,
};

verus! {

/// A day of the shown week and its notes, in display order.
#[derive(Debug)]
pub struct Column {
    pub date: CalendarDate,
    pub items: Vec<String>,
}

/// The selected date and the columns of its week.
#[derive(Debug)]
pub struct Model {
    pub date: CalendarDate,
    pub columns: Vec<Column>,
}

/// What the user asked for.
#[derive(Clone, Debug)]
pub enum Msg {
    /// Select the date one week earlier.
    MoveToPreviousWeek,
    /// Select the date one week later.
    MoveToNextWeek,
    /// Replace the note at an index of the column of a date with new text.
    TextChanged(CalendarDate, usize, String),
}

/// The columns of a freshly shown week: the seven days from the Monday of
/// `d`, each holding one empty note.
pub open spec fn is_fresh_week(cols: Seq<Column>, d: CalendarDate) -> bool {
    &&& cols.len() == 7
    &&& forall|i: int|
        0 <= i < 7 ==> {
            &&& (#[trigger] cols[i]).date@ == monday_of_day(d@) + i
            &&& cols[i].items@.len() == 1
            &&& cols[i].items@[0]@ == Seq::<char>::empty()
        }
}

impl Model {
    /// The columns are the seven days of the selected date's week, in order.
    pub open spec fn wf(&self) -> bool {
        &&& self.columns.len() == 7
        &&& forall|i: int|
            0 <= i < 7 ==> (#[trigger] self.columns@[i]).date@ == monday_of_day(self.date@) + i
    }

    /// The position of the column of date `d`, where the shown week holds it.
    pub open spec fn column_of(&self, d: CalendarDate) -> int {
        d@ - monday_of_day(self.date@)
    }
}

/// `new` is `old` with note `index` of column `j` replaced by `text`.
pub open spec fn is_note_edit(old: Model, new: Model, j: int, index: int, text: String) -> bool {
    &&& new.date == old.date
    &&& new.columns.len() == old.columns.len()
    &&& forall|i: int| 0 <= i < old.columns.len() && i != j ==> new.columns@[i] == old.columns@[i]
    &&& new.columns@[j].date == old.columns@[j].date
    &&& new.columns@[j].items@ == old.columns@[j].items@.update(index, text)
}

/// `new` shows the week of the date `n` days after the selected one, where
/// that date is supported, and is `old` unchanged otherwise.
pub open spec fn is_week_move(old: Model, new: Model, n: int) -> bool {
    if is_supported_day(old.date@ + n) {
        &&& new.date@ == old.date@ + n
        &&& is_fresh_week(new.columns@, new.date)
    } else {
        new == old
    }
}

/// The model that `update` makes of `old` on `msg`.
pub open spec fn is_update(old: Model, msg: Msg, new: Model) -> bool {
    match msg {
        Msg::MoveToPreviousWeek => is_week_move(old, new, -7),
        Msg::MoveToNextWeek => is_week_move(old, new, 7),
        Msg::TextChanged(d, index, text) => {
            let j = old.column_of(d);
            if 0 <= j < 7 && index < old.columns@[j].items.len() {
                is_note_edit(old, new, j, index as int, text)
            } else {
                new == old
            }
        },
    }
}

/// The seven columns of the week of `date`, Monday first, each with one
/// empty note.
pub fn build_columns(date: CalendarDate) -> (r: Vec<Column>)
    ensures
        is_fresh_week(r@, date),
{
    let monday = compute_last_monday(date);
    let first = monday.days_from_ce();
    proof {
        assert(weekday_of_day(monday@) == Weekday::Mon);
        assert(first + 6 <= LAST_DAY) by {
            assert((LAST_DAY - 1) % 7 == 6);
        }
    }
    let mut columns: Vec<Column> = Vec::new();
    for i in 0..7i32
        invariant
            first as int == monday_of_day(date@),
            monday@ == first as int,
            is_supported_day(first as int),
            first + 6 <= LAST_DAY,
            columns.len() == i,
            forall|k: int|
                0 <= k < i ==> {
                    &&& (#[trigger] columns@[k]).date@ == first + k
                    &&& columns@[k].items@.len() == 1
                    &&& columns@[k].items@[0]@ == Seq::<char>::empty()
                },
    {
        let day = monday.checked_add_days(i).unwrap();
        let items: Vec<String> = vec![String::new()];
        columns.push(Column { date: day, items });
    }
    columns
}

/// The model that shows the week of `today`.
pub fn init(today: CalendarDate) -> (m: Model)
    ensures
        m.date == today,
        m.wf(),
        is_fresh_week(m.columns@, today),
{
    Model { date: today, columns: build_columns(today) }
}

/// Selects `new_date` and shows its week afresh.
pub fn move_date(model: &mut Model, new_date: CalendarDate)
    ensures
        final(model).date == new_date,
        final(model).wf(),
        is_fresh_week(final(model).columns@, new_date),
{
    model.date = new_date;
    model.columns = build_columns(new_date);
}

/// Applies `msg` to `model`.
///
/// A week move whose date would leave the supported range, and a note edit
/// for a date outside the shown week or an index past the column's notes,
/// leave the model as it is.
pub fn update(msg: Msg, model: &mut Model)
    requires
        old(model).wf(),
    ensures
        final(model).wf(),
        is_update(*old(model), msg, *final(model)),
{
    match msg {
        Msg::MoveToPreviousWeek => {
            if let Some(d) = model.date.checked_add_days(-7) {
                move_date(model, d);
            }
        },
        Msg::MoveToNextWeek => {
            if let Some(d) = model.date.checked_add_days(7) {
                move_date(model, d);
            }
        },
        Msg::TextChanged(date, index, new_text) => {
            let found = find_column(&model.columns, date);
            proof {
                let j = model.column_of(date);
                if 0 <= j < 7 {
                    CalendarDate::lemma_view_injective(model.columns@[j].date, date);
                }
                if found.is_some() {
                    let f = found.unwrap() as int;
                    CalendarDate::lemma_view_injective(model.columns@[f].date, date);
                }
            }
            if let Some(j) = found {
                if index < model.columns[j].items.len() {
                    model.columns[j].items[index] = new_text;
                }
            }
        },
    }
}

/// The position of the first column of `date`, if any.
fn find_column(columns: &Vec<Column>, date: CalendarDate) -> (r: Option<usize>)
    ensures
        r.is_some() ==> r.unwrap() < columns.len() && columns@[r.unwrap() as int].date == date,
        r.is_some() ==> forall|k: int| 0 <= k < r.unwrap() ==> (#[trigger] columns@[k]).date != date,
        r.is_none() ==> forall|k: int| 0 <= k < columns.len() ==> (#[trigger] columns@[k]).date != date,
{
    let mut j: usize = 0;
    while j < columns.len()
        invariant
            j <= columns.len(),
            forall|k: int| 0 <= k < j ==> (#[trigger] columns@[k]).date != date,
        decreases columns.len() - j,
    {
        if columns[j].date == date {
            return Some(j);
        }
        j = j + 1;
    }
    None
}

} // verus!
