//! The execution dispatcher: which tasks a run executes, and the report that
//! its timed results make.
use vstd::prelude::*;
use crate::decimal::{decimal, digit_char, lemma_decimal_injective, push_decimal};
use crate::registry::{find_id, get_fn_map, task_id};

verus! {

/// Which tasks of a registry a run executes.
#[derive(PartialEq, Eq, Structural, Clone, Copy, Debug)]
pub enum Selection {
    /// Every task of the registry, in registry order.
    All,
    /// The one task at this position.
    One(usize),
    /// The selector names no task: nothing runs.
    Invalid,
}

/// A selector that names no task of a registry, with the range of identifiers
/// that would have been accepted.
#[derive(PartialEq, Eq, Debug)]
pub struct InvalidSelector {
    /// The selector as given.
    pub arg: String,
    /// The first valid identifier.
    pub first: u32,
    /// The number of tasks; the last valid identifier is `first + count - 1`.
    pub count: usize,
}

/// Resolves an optional selector against a registry numbered from `start`:
/// no selector runs everything, a selector equal to the identifier of a
/// position runs that task alone, any other selector runs nothing.
pub fn select<T: Copy>(tasks: &Vec<T>, arg: &Option<String>, start: u32) -> (s: Selection)
    requires
        start + tasks@.len() <= u32::MAX + 1,
    ensures
        match arg {
            None => s == Selection::All,
            Some(a) => match s {
                Selection::One(i) => i < tasks@.len() && a@ == task_id(start as nat, i as nat),
                Selection::Invalid => forall|i: nat|
                    i < tasks@.len() ==> a@ != #[trigger] task_id(start as nat, i),
                Selection::All => false,
            },
        },
{
    match arg {
        None => Selection::All,
        Some(a) => {
            let map = get_fn_map(tasks, start);
            match find_id(&map, a) {
                Some(i) => Selection::One(i),
                None => {
                    assert forall|i: nat| i < tasks@.len() implies a@ != #[trigger] task_id(
                        start as nat,
                        i,
                    ) by {
                        assert(map@[i as int].0@ == task_id(start as nat, i));
                    }
                    Selection::Invalid
                },
            }
        },
    }
}

/// The text of an optional selector.
pub open spec fn selector_view(arg: Option<String>) -> Option<Seq<char>> {
    match arg {
        Some(a) => Some(a@),
        None => None,
    }
}

/// The tasks that a run executes: with no selector the whole registry; with a
/// selector that is the identifier of a position the task there alone; with
/// any other selector none, and the run is refused.
pub open spec fn working_set<T>(tasks: Seq<T>, arg: Option<Seq<char>>, start: nat) -> Option<Seq<T>> {
    match arg {
        None => Some(tasks),
        Some(a) => if exists|i: nat| i < tasks.len() && a == #[trigger] task_id(start, i) {
            let i = choose|i: nat| i < tasks.len() && a == #[trigger] task_id(start, i);
            Some(seq![tasks[i as int]])
        } else {
            None
        },
    }
}

/// The tasks that a run with this selector executes, in the order in which they
/// are handed out: the whole registry, or the one selected task.
pub fn plan<T: Copy>(tasks: &Vec<T>, arg: &Option<String>, start: u32) -> (r: Result<
    Vec<T>,
    InvalidSelector,
>)
    requires
        start + tasks@.len() <= u32::MAX + 1,
    ensures
        match arg {
            None => match r {
                Ok(w) => w@ == tasks@,
                Err(_) => false,
            },
            Some(a) => match r {
                Ok(w) => exists|i: nat|
                    i < tasks@.len() && a@ == task_id(start as nat, i) && w@ == seq![tasks@[i as int]],
                Err(e) => e.arg@ == a@ && e.first == start && e.count == tasks@.len()
                    && forall|i: nat| i < tasks@.len() ==> a@ != #[trigger] task_id(start as nat, i),
            },
        },
        match r {
            Ok(w) => working_set(tasks@, selector_view(*arg), start as nat) == Some(w@),
            Err(_) => working_set(tasks@, selector_view(*arg), start as nat) is None,
        },
{
    match select(tasks, arg, start) {
        Selection::All => {
            let mut w: Vec<T> = Vec::new();
            let mut i: usize = 0;
            while i < tasks.len()
                invariant
                    i <= tasks@.len(),
                    w@ == tasks@.subrange(0, i as int),
                decreases tasks@.len() - i,
            {
                w.push(tasks[i]);
                i = i + 1;
            }
            assert(w@ =~= tasks@);
            Ok(w)
        },
        Selection::One(i) => {
            let mut w: Vec<T> = Vec::new();
            w.push(tasks[i]);
            assert(w@ =~= seq![tasks@[i as int]]);
            proof {
                let a = selector_view(*arg)->Some_0;
                assert(i < tasks@.len() && a == task_id(start as nat, i as nat));
                let j = choose|j: nat| j < tasks@.len() && a == #[trigger] task_id(start as nat, j);
                lemma_decimal_injective(start as nat + j, start as nat + i as nat);
            }
            Ok(w)
        },
        Selection::Invalid => {
            let a = match arg {
                Some(a) => a.clone(),
                None => String::new(),
            };
            Err(InvalidSelector { arg: a, first: start, count: tasks.len() })
        },
    }
}

/// A selector written as the number `k`, with `start <= k < start + count`,
/// names exactly one task of the registry: the one at position `k - start`.
pub proof fn lemma_single_select(start: nat, count: nat, k: nat)
    requires
        start <= k < start + count,
    ensures
        forall|i: nat| i < count ==> (decimal(k) == #[trigger] task_id(start, i) <==> i == k - start),
{
    assert forall|i: nat| i < count implies (decimal(k) == #[trigger] task_id(start, i) <==> i == k
        - start) by {
        if decimal(k) == task_id(start, i) {
            lemma_decimal_injective(k, start + i);
        }
    }
}

/// Laws of a run over a registry of tasks numbered from `start`. With no
/// selector every task runs, each once and in registry order. With the
/// identifier `k` of a task, `start <= k < start + N`, exactly that task runs,
/// the one at position `k - start`. With the identifier one past the last task,
/// or with a selector holding a character that is no decimal digit, no task
/// runs.
pub proof fn lemma_run_laws<T>(tasks: Seq<T>, start: nat)
    ensures
        working_set(tasks, None, start) == Some(tasks),
        forall|k: nat|
            start <= k < start + tasks.len() ==> #[trigger] working_set(tasks, Some(decimal(k)), start)
                == Some(seq![tasks[k - start]]),
        working_set(tasks, Some(decimal(start + tasks.len())), start) is None,
        forall|sel: Seq<char>, j: int|
            0 <= j < sel.len() && !('0' <= #[trigger] sel[j] && sel[j] <= '9') ==> working_set(
                tasks,
                Some(sel),
                start,
            ) is None,
{
    assert forall|k: nat| start <= k < start + tasks.len() implies #[trigger] working_set(
        tasks,
        Some(decimal(k)),
        start,
    ) == Some(seq![tasks[k - start]]) by {
        lemma_single_select(start, tasks.len(), k);
        assert(decimal(k) == task_id(start, (k - start) as nat));
        let i = choose|i: nat| i < tasks.len() && decimal(k) == #[trigger] task_id(start, i);
    }
    lemma_past_end_invalid(start, tasks.len());
    assert forall|sel: Seq<char>, j: int|
        0 <= j < sel.len() && !('0' <= #[trigger] sel[j] && sel[j] <= '9') implies working_set(
        tasks,
        Some(sel),
        start,
    ) is None by {
        lemma_non_numeric_invalid(sel, start, tasks.len(), j);
    }
}

/// The identifier one past the last task names no task.
pub proof fn lemma_past_end_invalid(start: nat, count: nat)
    ensures
        forall|i: nat| i < count ==> decimal(start + count) != #[trigger] task_id(start, i),
{
    assert forall|i: nat| i < count implies decimal(start + count) != #[trigger] task_id(
        start,
        i,
    ) by {
        if decimal(start + count) == task_id(start, i) {
            lemma_decimal_injective(start + count, start + i);
        }
    }
}

/// Every character of a decimal representation is a digit.
pub proof fn lemma_decimal_digits(n: nat)
    ensures
        forall|k: int|
            0 <= k < decimal(n).len() ==> exists|d: nat| d < 10 && #[trigger] decimal(n)[k] == digit_char(d),
    decreases n,
{
    if n >= 10 {
        lemma_decimal_digits(n / 10);
        let s = decimal(n);
        assert forall|k: int| 0 <= k < s.len() implies exists|d: nat|
            d < 10 && #[trigger] s[k] == digit_char(d) by {
            if k < s.len() - 1 {
                assert(s[k] == decimal(n / 10)[k]);
            } else {
                assert(s[k] == digit_char(n % 10));
            }
        }
    } else {
        assert(decimal(n)[0] == digit_char(n));
    }
}

/// A selector holding a character that is not a decimal digit names no task.
pub proof fn lemma_non_numeric_invalid(sel: Seq<char>, start: nat, count: nat, k: int)
    requires
        0 <= k < sel.len(),
        !('0' <= sel[k] && sel[k] <= '9'),
    ensures
        forall|i: nat| i < count ==> sel != #[trigger] task_id(start, i),
{
    assert forall|i: nat| i < count implies sel != #[trigger] task_id(start, i) by {
        if sel == task_id(start, i) {
            lemma_decimal_digits(start + i);
            let d = choose|d: nat| d < 10 && decimal(start + i)[k] == digit_char(d);
            assert(sel[k] == digit_char(d));
        }
    }
}

impl InvalidSelector {
    /// The diagnostic: the selector given, and the range of valid identifiers.
    pub fn lines(&self) -> (lines: Vec<String>)
        ensures
            lines@.len() == 2,
            lines@[0]@ == "invalid argument: "@ + self.arg@,
            self.count > 0 ==> lines@[1]@ == "valid argument: a number between "@ + decimal(
                self.first as nat,
            ) + " and "@ + decimal((self.first + self.count - 1) as nat),
            self.count == 0 ==> lines@[1]@ == "valid argument: none, no task is registered"@,
    {
        let mut lines: Vec<String> = Vec::new();
        let mut first = String::from_str("invalid argument: ");
        first.append(self.arg.as_str());
        lines.push(first);
        if self.count > 0 {
            let mut second = String::from_str("valid argument: a number between ");
            push_decimal(&mut second, self.first as u128);
            second.append(" and ");
            push_decimal(&mut second, self.first as u128 + self.count as u128 - 1);
            lines.push(second);
        } else {
            lines.push(String::from_str("valid argument: none, no task is registered"));
        }
        lines
    }
}

} // verus!
