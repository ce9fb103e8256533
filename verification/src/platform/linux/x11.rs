//! The choice between two sources of pointer coordinates.

use crate::text::joined;
use vstd::prelude::*;

verus! {

/// What is said when neither source knows where the pointer is.
pub open spec fn no_position_text(error: Seq<char>) -> Seq<char> {
    "PipeWire has not provided cursor coordinates and X11 fallback failed: "@ + error
}

/// Whether the coordinates that PipeWire observed are used without asking X11: it observed
/// some, and not the same observation as the last time.
pub open spec fn pipewire_suffices(pipewire: Option<((i32, i32), u64)>, last: Option<u64>) -> bool {
    pipewire is Some && Some(pipewire.unwrap().1) != last
}

/// Whether `position` is that of the pointer, as PipeWire observed it or X11 answered.
pub open spec fn is_preferred<F: FnOnce() -> Result<(i32, i32), String>>(
    pipewire: Option<((i32, i32), u64)>,
    last: Option<u64>,
    x11: F,
    position: Result<(i32, i32), String>,
) -> bool {
    if pipewire_suffices(pipewire, last) {
        position == Ok::<(i32, i32), String>(pipewire.unwrap().0)
    } else {
        exists|answer: Result<(i32, i32), String>| #[trigger]
            call_ensures(x11, (), answer) && match (answer, pipewire) {
                (Ok(asked), _) => position == Ok::<(i32, i32), String>(asked),
                (Err(_), Some((observed, _))) => position == Ok::<(i32, i32), String>(observed),
                (Err(error), None) => position is Err && position->Err_0@ == no_position_text(
                    error@,
                ),
            }
    }
}

/// The position of the pointer: a new observation of PipeWire where there is one. Otherwise X11
/// is asked, and the old observation is used if that fails. X11 is left alone where a new
/// observation suffices: only otherwise may it be asked at all.
pub fn preferred_position<F: FnOnce() -> Result<(i32, i32), String>>(
    pipewire: Option<((i32, i32), u64)>,
    last_pipewire_sequence: Option<u64>,
    x11: F,
) -> (r: Result<(i32, i32), String>)
    requires
        !pipewire_suffices(pipewire, last_pipewire_sequence) ==> call_requires(x11, ()),
    ensures
        is_preferred(pipewire, last_pipewire_sequence, x11, r),
{
    match pipewire {
        Some((position, sequence)) => {
            let is_new = match last_pipewire_sequence {
                Some(last) => last != sequence,
                None => true,
            };
            if is_new {
                return Ok(position);
            }
            match x11() {
                Ok(asked) => Ok(asked),
                Err(_) => Ok(position),
            }
        },
        None => match x11() {
            Ok(asked) => Ok(asked),
            Err(error) => Err(
                joined(
                    "PipeWire has not provided cursor coordinates and X11 fallback failed: ",
                    error.as_str(),
                ),
            ),
        },
    }
}

/// The number of the last observation after one more look at PipeWire.
pub fn next_sequence(pipewire: Option<((i32, i32), u64)>, last: Option<u64>) -> (r: Option<u64>)
    ensures
        r == (match pipewire {
            Some((_, sequence)) => Some(sequence),
            None => last,
        }),
{
    match pipewire {
        Some((_, sequence)) => Some(sequence),
        None => last,
    }
}

/// An observation that was used is not taken for a new one the next time.
pub proof fn law_observations_are_new_once(position: (i32, i32), sequence: u64, last: Option<u64>)
    ensures
        !pipewire_suffices(Some((position, sequence)), Some(sequence)),
{
}

/// What X11 said of the pointer on one screen.
#[derive(Clone, Copy, Debug, PartialEq, Eq, Structural)]
pub struct ScreenPointer {
    pub same_screen: bool,
    pub root_x: i16,
    pub root_y: i16,
}

/// The first screen, from `from` on, that has the pointer.
pub open spec fn first_with_pointer(screens: Seq<ScreenPointer>, from: int) -> int
    decreases screens.len() - from,
{
    if from >= screens.len() || screens[from].same_screen {
        from
    } else {
        first_with_pointer(screens, from + 1)
    }
}

/// The position of the pointer on the first screen that has it.
pub fn x11_position(screens: &Vec<ScreenPointer>) -> (r: Result<(i32, i32), String>)
    ensures
        match r {
            Ok(position) => first_with_pointer(screens@, 0) < screens@.len() && position == (
                screens@[first_with_pointer(screens@, 0)].root_x as i32,
                screens@[first_with_pointer(screens@, 0)].root_y as i32,
            ),
            Err(message) => first_with_pointer(screens@, 0) >= screens@.len() && message@
                == "X11 did not report the pointer on any screen"@,
        },
{
    let mut i: usize = 0;
    while i < screens.len()
        invariant
            i <= screens@.len(),
            first_with_pointer(screens@, 0) == first_with_pointer(screens@, i as int),
        decreases screens@.len() - i,
    {
        let screen = screens[i];
        if screen.same_screen {
            return Ok((screen.root_x as i32, screen.root_y as i32));
        }
        i += 1;
    }
    Err("X11 did not report the pointer on any screen".to_owned())
}

/// PipeWire suffices if it observed the pointer and that is not the observation of last time.
pub proof fn law_new_observations_suffice(position: (i32, i32), sequence: u64, last: Option<u64>)
    ensures
        !pipewire_suffices(None, last),
        pipewire_suffices(Some((position, sequence)), None),
        last is Some ==> (pipewire_suffices(Some((position, sequence)), last) <==> sequence
            != last->0),
{
}

proof fn lemma_first_with_pointer(screens: Seq<ScreenPointer>, from: int, k: int)
    requires
        0 <= from <= k <= screens.len(),
        forall|j: int| from <= j < k ==> !(#[trigger] screens[j]).same_screen,
        k < screens.len() ==> screens[k].same_screen,
    ensures
        first_with_pointer(screens, from) == k,
    decreases k - from,
{
    if from < k {
        assert(!screens[from].same_screen);
        lemma_first_with_pointer(screens, from + 1, k);
    }
}

/// The pointer is where the first screen that has it says.
pub proof fn law_the_first_screen_with_the_pointer_counts(screens: Seq<ScreenPointer>, k: int)
    requires
        0 <= k <= screens.len(),
        forall|j: int| 0 <= j < k ==> !(#[trigger] screens[j]).same_screen,
        k < screens.len() ==> screens[k].same_screen,
    ensures
        first_with_pointer(screens, 0) == k,
{
    lemma_first_with_pointer(screens, 0, k);
}

/// A new observation of PipeWire counts before X11, X11 before an old observation, and an old
/// observation where X11 fails; there is no position only where neither knows one.
pub proof fn law_positions_are_preferred_in_order<F: FnOnce() -> Result<(i32, i32), String>>(
    observed: (i32, i32),
    sequence: u64,
    last: Option<u64>,
    x11: F,
    asked: (i32, i32),
    position: Result<(i32, i32), String>,
)
    ensures
        is_preferred(Some((observed, sequence)), last, x11, position) ==> position is Ok,
        is_preferred(Some((observed, sequence)), last, x11, position) && (last is None || last->0
            != sequence) ==> position->Ok_0 == observed,
        is_preferred(Some((observed, sequence)), Some(sequence), x11, position) && (forall|
            answer: Result<(i32, i32), String>,
        | #[trigger]
            call_ensures(x11, (), answer) ==> answer == Ok::<(i32, i32), String>(asked))
            ==> position->Ok_0 == asked,
        is_preferred(Some((observed, sequence)), Some(sequence), x11, position) && (forall|
            answer: Result<(i32, i32), String>,
        | #[trigger]
            call_ensures(x11, (), answer) ==> answer is Err) ==> position->Ok_0 == observed,
        is_preferred(None, last, x11, position) && (forall|
            answer: Result<(i32, i32), String>,
        | #[trigger]
            call_ensures(x11, (), answer) ==> answer is Err) ==> position is Err,
        is_preferred(None, last, x11, position) && (forall|
            answer: Result<(i32, i32), String>,
        | #[trigger]
            call_ensures(x11, (), answer) ==> answer == Ok::<(i32, i32), String>(asked))
            ==> position == Ok::<(i32, i32), String>(asked),
{
}

} // verus!
