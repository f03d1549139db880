//! Choosing animations: what to show when a character is opened, and what to
//! talk over.
use vstd::prelude::*;

use crate::character::Character;
use crate::text;
use crate::text::eq_ignore_ascii_case;
use crate::types::{Animation, Frame, StateInfo};

verus! {

/// What an animation is wanted for.
#[derive(Debug, Clone, Copy, PartialEq, Eq, Structural)]
pub enum Use {
    /// To be played: it has frames.
    Playing,
    /// To be talked over: some frame carries mouth overlays.
    Talking,
}

/// Some frame carries mouth overlays.
pub open spec fn has_overlays(frames: Seq<Frame>) -> bool {
    exists|k: int| 0 <= k < frames.len() && (#[trigger] frames[k]).overlays@.len() > 0
}

/// Animation number `i` is there and of use.
pub open spec fn serves(animations: Seq<Animation>, i: int, wanted: Use) -> bool {
    0 <= i < animations.len() && match wanted {
        Use::Playing => animations[i].frames@.len() > 0,
        Use::Talking => has_overlays(animations[i].frames@),
    }
}

/// The first animation from `i` on with this name, ignoring ASCII case.
pub open spec fn named_from(animations: Seq<Animation>, name: Seq<char>, i: int) -> Option<int>
    decreases animations.len() - i,
{
    if i < 0 || i >= animations.len() {
        None
    } else if text::same_ignoring_case(animations[i].name@, name) {
        Some(i)
    } else {
        named_from(animations, name, i + 1)
    }
}

/// The first animation from `i` on that is of use.
pub open spec fn serving_from(animations: Seq<Animation>, wanted: Use, i: int) -> Option<int>
    decreases animations.len() - i,
{
    if i < 0 || i >= animations.len() {
        None
    } else if serves(animations, i, wanted) {
        Some(i)
    } else {
        serving_from(animations, wanted, i + 1)
    }
}

/// Going through names from `k` on: the animation of the first name that has
/// one of use.
pub open spec fn by_names(
    animations: Seq<Animation>,
    names: Seq<Seq<char>>,
    wanted: Use,
    k: int,
) -> Option<int>
    decreases names.len() - k,
{
    if k < 0 || k >= names.len() {
        None
    } else {
        match named_from(animations, names[k], 0) {
            Some(i) => if serves(animations, i, wanted) {
                Some(i)
            } else {
                by_names(animations, names, wanted, k + 1)
            },
            None => by_names(animations, names, wanted, k + 1),
        }
    }
}

/// Going through the states of this name from `k` on, ignoring ASCII case, and
/// through the names of each: the first animation of use.
pub open spec fn by_state(
    animations: Seq<Animation>,
    states: Seq<StateInfo>,
    state: Seq<char>,
    wanted: Use,
    k: int,
) -> Option<int>
    decreases states.len() - k,
{
    if k < 0 || k >= states.len() {
        None
    } else {
        let here = if text::same_ignoring_case(states[k].name@, state) {
            by_names(animations, text::texts(states[k].animations@), wanted, 0)
        } else {
            None
        };
        if here is Some {
            here
        } else {
            by_state(animations, states, state, wanted, k + 1)
        }
    }
}

/// The names of resting poses, best first.
pub open spec fn resting_names() -> Seq<Seq<char>> {
    seq!["RestPose"@, "Idle1_1"@, "Greet"@, "Show"@, "Showing"@]
}

/// The names of animations to talk over, best first.
pub open spec fn talking_names() -> Seq<Seq<char>> {
    seq!["RestPose"@, "Idle1_1"@, "Explain"@, "Announce"@]
}

/// The animation to show when a character is first opened: a resting pose, so
/// it opens in a natural state, then one that belongs to the SHOWING state,
/// then any.
pub open spec fn opening(c: Character) -> Option<int> {
    let a = c.animations@;
    let resting = by_names(a, resting_names(), Use::Playing, 0);
    if resting is Some {
        resting
    } else {
        let showing = by_state(a, c.info.states@, "showing"@, Use::Playing, 0);
        if showing is Some {
            showing
        } else {
            serving_from(a, Use::Playing, 0)
        }
    }
}

/// An animation suitable for talking over: one that actually carries mouth
/// overlays, preferring whatever the character assigns to its SPEAKING state.
pub open spec fn talking(c: Character) -> Option<int> {
    let a = c.animations@;
    let speaking = by_state(a, c.info.states@, "speaking"@, Use::Talking, 0);
    if speaking is Some {
        speaking
    } else {
        let known = by_names(a, talking_names(), Use::Talking, 0);
        if known is Some {
            known
        } else {
            serving_from(a, Use::Talking, 0)
        }
    }
}

proof fn by_names_serves(
    animations: Seq<Animation>,
    names: Seq<Seq<char>>,
    wanted: Use,
    k: int,
)
    ensures
        by_names(animations, names, wanted, k) matches Some(i) ==> serves(animations, i, wanted),
    decreases names.len() - k,
{
    if 0 <= k < names.len() {
        by_names_serves(animations, names, wanted, k + 1);
    }
}

proof fn by_state_serves(
    animations: Seq<Animation>,
    states: Seq<StateInfo>,
    state: Seq<char>,
    wanted: Use,
    k: int,
)
    ensures
        by_state(animations, states, state, wanted, k) matches Some(i) ==> serves(
            animations,
            i,
            wanted,
        ),
    decreases states.len() - k,
{
    if 0 <= k < states.len() {
        by_names_serves(animations, text::texts(states[k].animations@), wanted, 0);
        by_state_serves(animations, states, state, wanted, k + 1);
    }
}

proof fn serving_is_first(animations: Seq<Animation>, wanted: Use, i: int)
    requires
        0 <= i,
    ensures
        match serving_from(animations, wanted, i) {
            Some(k) => i <= k && serves(animations, k, wanted),
            None => forall|k: int| i <= k ==> !#[trigger] serves(animations, k, wanted),
        },
    decreases animations.len() - i,
{
    if i < animations.len() {
        serving_is_first(animations, wanted, i + 1);
    }
}

/// A character with anything to play opens with something that plays, and one
/// with nothing opens with nothing.
pub proof fn opening_plays(c: Character)
    ensures
        match opening(c) {
            Some(i) => serves(c.animations@, i, Use::Playing),
            None => forall|i: int| !#[trigger] serves(c.animations@, i, Use::Playing),
        },
{
    by_names_serves(c.animations@, resting_names(), Use::Playing, 0);
    by_state_serves(c.animations@, c.info.states@, "showing"@, Use::Playing, 0);
    serving_is_first(c.animations@, Use::Playing, 0);
}

/// A character with any mouth overlays talks over an animation that has some,
/// and one without talks over none.
pub proof fn talking_moves_the_mouth(c: Character)
    ensures
        match talking(c) {
            Some(i) => serves(c.animations@, i, Use::Talking),
            None => forall|i: int| !#[trigger] serves(c.animations@, i, Use::Talking),
        },
{
    by_state_serves(c.animations@, c.info.states@, "speaking"@, Use::Talking, 0);
    by_names_serves(c.animations@, talking_names(), Use::Talking, 0);
    serving_is_first(c.animations@, Use::Talking, 0);
}

/// Whether some frame carries mouth overlays.
pub fn frames_have_overlays(frames: &Vec<Frame>) -> (r: bool)
    ensures
        r == has_overlays(frames@),
{
    let mut k: usize = 0;
    while k < frames.len()
        invariant
            k <= frames@.len(),
            forall|j: int| 0 <= j < k ==> (#[trigger] frames@[j]).overlays@.len() == 0,
        decreases frames@.len() - k,
    {
        if frames[k].overlays.len() > 0 {
            return true;
        }
        k += 1;
    }
    false
}

/// Whether an animation is there and carries mouth overlays.
pub fn animation_has_overlays(character: &Character, index: usize) -> (r: bool)
    ensures
        r == serves(character.animations@, index as int, Use::Talking),
{
    index < character.animations.len() && frames_have_overlays(&character.animations[index].frames)
}

fn is_of_use(character: &Character, index: usize, wanted: Use) -> (r: bool)
    ensures
        r == serves(character.animations@, index as int, wanted),
{
    match wanted {
        Use::Playing => index < character.animations.len()
            && character.animations[index].frames.len() > 0,
        Use::Talking => animation_has_overlays(character, index),
    }
}

/// Finds the first animation with this name, ignoring ASCII case.
pub fn find_animation(character: &Character, name: &str) -> (r: Option<usize>)
    ensures
        match r {
            Some(i) => named_from(character.animations@, name@, 0) == Some(i as int) && i
                < character.animations@.len(),
            None => named_from(character.animations@, name@, 0) is None,
        },
{
    let mut i: usize = 0;
    while i < character.animations.len()
        invariant
            i <= character.animations@.len(),
            named_from(character.animations@, name@, 0) == named_from(
                character.animations@,
                name@,
                i as int,
            ),
        decreases character.animations@.len() - i,
    {
        if eq_ignore_ascii_case(character.animations[i].name.as_str(), name) {
            return Some(i);
        }
        i += 1;
    }
    None
}

fn find_by_name(character: &Character, name: &str, wanted: Use) -> (r: Option<usize>)
    ensures
        r matches Some(i) ==> serves(character.animations@, i as int, wanted),
        match named_from(character.animations@, name@, 0) {
            Some(i) => if serves(character.animations@, i, wanted) {
                r == Some(i as usize) && i <= usize::MAX
            } else {
                r is None
            },
            None => r is None,
        },
{
    match find_animation(character, name) {
        Some(i) => if is_of_use(character, i, wanted) {
            Some(i)
        } else {
            None
        },
        None => None,
    }
}

/// An index as found by the searches here.
pub open spec fn found(r: Option<usize>) -> Option<int> {
    match r {
        Some(i) => Some(i as int),
        None => None,
    }
}

fn find_by_names(character: &Character, names: &Vec<String>, wanted: Use) -> (r: Option<usize>)
    ensures
        found(r) == by_names(character.animations@, text::texts(names@), wanted, 0),
{
    let mut k: usize = 0;
    while k < names.len()
        invariant
            k <= names@.len(),
            by_names(character.animations@, text::texts(names@), wanted, 0) == by_names(
                character.animations@,
                text::texts(names@),
                wanted,
                k as int,
            ),
        decreases names@.len() - k,
    {
        assert(text::texts(names@)[k as int] == names@[k as int]@);
        if let Some(i) = find_by_name(character, names[k].as_str(), wanted) {
            return Some(i);
        }
        k += 1;
    }
    None
}

fn find_by_state(character: &Character, state: &str, wanted: Use) -> (r: Option<usize>)
    ensures
        found(r) == by_state(character.animations@, character.info.states@, state@, wanted, 0),
{
    let states = &character.info.states;
    let mut k: usize = 0;
    while k < states.len()
        invariant
            k <= states@.len(),
            states == character.info.states,
            by_state(character.animations@, states@, state@, wanted, 0) == by_state(
                character.animations@,
                states@,
                state@,
                wanted,
                k as int,
            ),
        decreases states@.len() - k,
    {
        if eq_ignore_ascii_case(states[k].name.as_str(), state) {
            if let Some(i) = find_by_names(character, &states[k].animations, wanted) {
                return Some(i);
            }
        }
        k += 1;
    }
    None
}

/// Finds the first animation of use.
pub fn find_first(character: &Character, wanted: Use) -> (r: Option<usize>)
    ensures
        found(r) == serving_from(character.animations@, wanted, 0),
{
    let mut i: usize = 0;
    while i < character.animations.len()
        invariant
            i <= character.animations@.len(),
            serving_from(character.animations@, wanted, 0) == serving_from(
                character.animations@,
                wanted,
                i as int,
            ),
        decreases character.animations@.len() - i,
    {
        if is_of_use(character, i, wanted) {
            return Some(i);
        }
        i += 1;
    }
    None
}

/// Chooses the animation to show when a character is first opened.
pub fn pick_initial_animation(character: &Character) -> (r: Option<usize>)
    ensures
        found(r) == opening(*character),
{
    let mut names: Vec<String> = Vec::new();
    names.push("RestPose".to_owned());
    names.push("Idle1_1".to_owned());
    names.push("Greet".to_owned());
    names.push("Show".to_owned());
    names.push("Showing".to_owned());
    assert(text::texts(names@) =~= resting_names());
    if let Some(i) = find_by_names(character, &names, Use::Playing) {
        return Some(i);
    }
    if let Some(i) = find_by_state(character, "showing", Use::Playing) {
        return Some(i);
    }
    find_first(character, Use::Playing)
}

/// Finds an animation suitable for talking over.
pub fn speaking_animation(character: &Character) -> (r: Option<usize>)
    ensures
        found(r) == talking(*character),
{
    if let Some(i) = find_by_state(character, "speaking", Use::Talking) {
        return Some(i);
    }
    let mut names: Vec<String> = Vec::new();
    names.push("RestPose".to_owned());
    names.push("Idle1_1".to_owned());
    names.push("Explain".to_owned());
    names.push("Announce".to_owned());
    assert(text::texts(names@) =~= talking_names());
    if let Some(i) = find_by_names(character, &names, Use::Talking) {
        return Some(i);
    }
    find_first(character, Use::Talking)
}

/// The name has no animation that is of use: none of that name, or the first of
/// that name does not serve.
pub open spec fn is_no_use(animations: Seq<Animation>, name: Seq<char>, wanted: Use) -> bool {
    match named_from(animations, name, 0) {
        Some(i) => !serves(animations, i, wanted),
        None => true,
    }
}

/// The first animation of a name, ignoring ASCII case, is found, and none where
/// there is none.
pub proof fn the_first_of_a_name_is_found(animations: Seq<Animation>, name: Seq<char>)
    ensures
        match named_from(animations, name, 0) {
            Some(i) => {
                &&& 0 <= i < animations.len()
                &&& text::same_ignoring_case(animations[i].name@, name)
                &&& forall|j: int|
                    0 <= j < i ==> !text::same_ignoring_case((#[trigger] animations[j]).name@, name)
            },
            None => forall|j: int|
                0 <= j < animations.len() ==> !text::same_ignoring_case(
                    (#[trigger] animations[j]).name@,
                    name,
                ),
        },
{
    named_is_first(animations, name, 0);
}

proof fn named_is_first(animations: Seq<Animation>, name: Seq<char>, i: int)
    requires
        0 <= i,
    ensures
        match named_from(animations, name, i) {
            Some(k) => {
                &&& i <= k < animations.len()
                &&& text::same_ignoring_case(animations[k].name@, name)
                &&& forall|j: int|
                    i <= j < k ==> !text::same_ignoring_case((#[trigger] animations[j]).name@, name)
            },
            None => forall|j: int|
                i <= j < animations.len() ==> !text::same_ignoring_case(
                    (#[trigger] animations[j]).name@,
                    name,
                ),
        },
    decreases animations.len() - i,
{
    if i < animations.len() {
        named_is_first(animations, name, i + 1);
    }
}

/// An animation is of use for playing if it has frames, and for talking if one
/// of them carries mouth overlays.
pub proof fn what_serves(animations: Seq<Animation>, i: int, k: int)
    requires
        0 <= i < animations.len(),
    ensures
        serves(animations, i, Use::Playing) == (animations[i].frames@.len() > 0),
        0 <= k < animations[i].frames@.len() && animations[i].frames@[k].overlays@.len() > 0
            ==> serves(animations, i, Use::Talking),
        (forall|j: int|
            0 <= j < animations[i].frames@.len() ==> (
            #[trigger] animations[i].frames@[j]).overlays@.len() == 0) ==> !serves(
            animations,
            i,
            Use::Talking,
        ),
{
}

proof fn names_in_turn(
    animations: Seq<Animation>,
    names: Seq<Seq<char>>,
    wanted: Use,
    from: int,
    k: int,
    i: int,
)
    requires
        0 <= from <= k <= names.len(),
        forall|j: int| from <= j < k ==> is_no_use(animations, #[trigger] names[j], wanted),
        k < names.len() ==> named_from(animations, names[k], 0) == Some(i) && serves(
            animations,
            i,
            wanted,
        ),
    ensures
        by_names(animations, names, wanted, from) == (if k < names.len() {
            Some(i)
        } else {
            None
        }),
    decreases k - from,
{
    if from < k {
        assert(is_no_use(animations, names[from], wanted));
        names_in_turn(animations, names, wanted, from + 1, k, i);
    }
}

/// A character opens with the first that plays of RestPose, Idle1_1, Greet, Show
/// and Showing, in that order. `k` is the place of the name that is taken.
pub proof fn resting_poses_in_turn(c: Character, k: int, i: int)
    requires
        0 <= k < 5,
        ({
            let names = seq!["RestPose"@, "Idle1_1"@, "Greet"@, "Show"@, "Showing"@];
            &&& forall|j: int|
                0 <= j < k ==> is_no_use(c.animations@, #[trigger] names[j], Use::Playing)
            &&& named_from(c.animations@, names[k], 0) == Some(i)
            &&& serves(c.animations@, i, Use::Playing)
        }),
    ensures
        opening(c) == Some(i),
{
    let names = seq!["RestPose"@, "Idle1_1"@, "Greet"@, "Show"@, "Showing"@];
    assert(names =~= resting_names());
    names_in_turn(c.animations@, names, Use::Playing, 0, k, i);
}

/// Without a resting pose that plays, a character opens with what its SHOWING
/// states name, and without that with the first animation that plays.
pub proof fn showing_comes_next(c: Character, i: int)
    requires
        is_no_use(c.animations@, "RestPose"@, Use::Playing),
        is_no_use(c.animations@, "Idle1_1"@, Use::Playing),
        is_no_use(c.animations@, "Greet"@, Use::Playing),
        is_no_use(c.animations@, "Show"@, Use::Playing),
        is_no_use(c.animations@, "Showing"@, Use::Playing),
    ensures
        by_state(c.animations@, c.info.states@, "showing"@, Use::Playing, 0) is Some ==> opening(c)
            == by_state(c.animations@, c.info.states@, "showing"@, Use::Playing, 0),
        by_state(c.animations@, c.info.states@, "showing"@, Use::Playing, 0) is None && serves(
            c.animations@,
            i,
            Use::Playing,
        ) && (forall|j: int| 0 <= j < i ==> !#[trigger] serves(c.animations@, j, Use::Playing))
            ==> opening(c) == Some(i),
{
    let names = seq!["RestPose"@, "Idle1_1"@, "Greet"@, "Show"@, "Showing"@];
    assert(names =~= resting_names());
    names_in_turn(c.animations@, names, Use::Playing, 0, 5, 0);
    if serves(c.animations@, i, Use::Playing) && (forall|j: int|
        0 <= j < i ==> !#[trigger] serves(c.animations@, j, Use::Playing)) {
        first_serves(c.animations@, Use::Playing, 0, i);
    }
}

pub(crate) proof fn first_serves(animations: Seq<Animation>, wanted: Use, from: int, i: int)
    requires
        0 <= from <= i,
        serves(animations, i, wanted),
        forall|j: int| from <= j < i ==> !#[trigger] serves(animations, j, wanted),
    ensures
        serving_from(animations, wanted, from) == Some(i),
    decreases i - from,
{
    if from < i {
        assert(!serves(animations, from, wanted));
        first_serves(animations, wanted, from + 1, i);
    }
}

/// The states of a name are gone through in their order, and the animations that
/// each names in theirs: the first that serves is taken.
pub proof fn states_in_turn(
    animations: Seq<Animation>,
    states: Seq<StateInfo>,
    state: Seq<char>,
    wanted: Use,
    k: int,
    n: int,
    i: int,
)
    requires
        0 <= k < states.len(),
        text::same_ignoring_case(states[k].name@, state),
        0 <= n < states[k].animations@.len(),
        forall|m: int|
            0 <= m < n ==> is_no_use(animations, (#[trigger] states[k].animations@[m])@, wanted),
        named_from(animations, states[k].animations@[n]@, 0) == Some(i),
        serves(animations, i, wanted),
        forall|j: int|
            0 <= j < k ==> !text::same_ignoring_case((#[trigger] states[j]).name@, state) || (forall|
                m: int,
            |
                0 <= m < states[j].animations@.len() ==> is_no_use(
                    animations,
                    (#[trigger] states[j].animations@[m])@,
                    wanted,
                )),
    ensures
        by_state(animations, states, state, wanted, 0) == Some(i),
{
    let names = text::texts(states[k].animations@);
    assert forall|m: int| 0 <= m < n implies is_no_use(animations, #[trigger] names[m], wanted) by {
        assert(names[m] == states[k].animations@[m]@);
    }
    assert(names[n] == states[k].animations@[n]@);
    names_in_turn(animations, names, wanted, 0, n, i);
    states_pass(animations, states, state, wanted, 0, k);
}

proof fn states_pass(
    animations: Seq<Animation>,
    states: Seq<StateInfo>,
    state: Seq<char>,
    wanted: Use,
    from: int,
    k: int,
)
    requires
        0 <= from <= k < states.len(),
        text::same_ignoring_case(states[k].name@, state),
        by_names(animations, text::texts(states[k].animations@), wanted, 0) is Some,
        forall|j: int|
            from <= j < k ==> !text::same_ignoring_case((#[trigger] states[j]).name@, state) || (
            forall|m: int|
                0 <= m < states[j].animations@.len() ==> is_no_use(
                    animations,
                    (#[trigger] states[j].animations@[m])@,
                    wanted,
                )),
    ensures
        by_state(animations, states, state, wanted, from) == by_names(
            animations,
            text::texts(states[k].animations@),
            wanted,
            0,
        ),
    decreases k - from,
{
    if from < k {
        if text::same_ignoring_case(states[from].name@, state) {
            let names = text::texts(states[from].animations@);
            assert forall|m: int| 0 <= m < names.len() implies is_no_use(
                animations,
                #[trigger] names[m],
                wanted,
            ) by {
                assert(names[m] == states[from].animations@[m]@);
            }
            names_in_turn(animations, names, wanted, 0, names.len() as int, 0);
        }
        states_pass(animations, states, state, wanted, from + 1, k);
    }
}

/// To talk over, what the SPEAKING states name comes first, then RestPose,
/// Idle1_1, Explain and Announce, in that order, then the first that carries
/// mouth overlays.
pub proof fn talking_poses_in_turn(c: Character, k: int, i: int)
    requires
        0 <= k <= 4,
        ({
            let names = seq!["RestPose"@, "Idle1_1"@, "Explain"@, "Announce"@];
            &&& forall|j: int|
                0 <= j < k ==> is_no_use(c.animations@, #[trigger] names[j], Use::Talking)
            &&& k < 4 ==> named_from(c.animations@, names[k], 0) == Some(i) && serves(
                c.animations@,
                i,
                Use::Talking,
            )
        }),
    ensures
        by_state(c.animations@, c.info.states@, "speaking"@, Use::Talking, 0) is Some ==> talking(c)
            == by_state(c.animations@, c.info.states@, "speaking"@, Use::Talking, 0),
        by_state(c.animations@, c.info.states@, "speaking"@, Use::Talking, 0) is None && k < 4
            ==> talking(c) == Some(i),
        by_state(c.animations@, c.info.states@, "speaking"@, Use::Talking, 0) is None && k == 4
            && serves(c.animations@, i, Use::Talking) && (forall|j: int|
            0 <= j < i ==> !#[trigger] serves(c.animations@, j, Use::Talking)) ==> talking(c)
            == Some(i),
{
    let names = seq!["RestPose"@, "Idle1_1"@, "Explain"@, "Announce"@];
    assert(names =~= talking_names());
    names_in_turn(c.animations@, names, Use::Talking, 0, k, i);
    if k == 4 && serves(c.animations@, i, Use::Talking) && (forall|j: int|
        0 <= j < i ==> !#[trigger] serves(c.animations@, j, Use::Talking)) {
        first_serves(c.animations@, Use::Talking, 0, i);
    }
}

} // verus!
