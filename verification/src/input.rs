//! Keyboard state, the window input that ends the main loop, and the camera
//! moves that held keys ask for.

use vstd::prelude::*;

verus! {

/// The number of key codes whose state is kept.
pub const KEY_COUNT: usize = 1024;

/// Which keys are held down, by key code.
pub struct KeyStates {
    pressed: Vec<bool>,
}

impl View for KeyStates {
    type V = Seq<bool>;

    closed spec fn view(&self) -> Seq<bool> {
        self.pressed@
    }
}

impl KeyStates {
    /// The state of `KEY_COUNT` keys, none of them held.
    pub fn new() -> (k: KeyStates)
        ensures
            k@ == Seq::new(KEY_COUNT as nat, |i: int| false),
    {
        let mut pressed: Vec<bool> = Vec::new();
        let mut i: usize = 0;
        while i < KEY_COUNT
            invariant
                i <= KEY_COUNT,
                pressed@ == Seq::new(i as nat, |j: int| false),
            decreases KEY_COUNT - i,
        {
            pressed.push(false);
            assert(pressed@ =~= Seq::new((i + 1) as nat, |j: int| false));
            i = i + 1;
        }
        KeyStates { pressed }
    }

    /// The number of keys kept.
    pub fn len(&self) -> (n: usize)
        ensures
            n == self@.len(),
    {
        self.pressed.len()
    }

    /// Whether the key `code` is held.
    pub fn is_pressed(&self, code: usize) -> (b: bool)
        requires
            code < self@.len(),
        ensures
            b == self@[code as int],
    {
        self.pressed[code]
    }

    /// Records that the key `code` went down.
    pub fn press(&mut self, code: usize)
        requires
            code < old(self)@.len(),
        ensures
            final(self)@ == old(self)@.update(code as int, true),
    {
        self.pressed.set(code, true);
    }

    /// Records that the key `code` went up.
    pub fn release(&mut self, code: usize)
        requires
            code < old(self)@.len(),
        ensures
            final(self)@ == old(self)@.update(code as int, false),
    {
        self.pressed.set(code, false);
    }
}

/// Holding a key down and reading it back gives `true`, letting it go and
/// reading it back gives `false`, and neither touches another key.
pub proof fn lemma_key_read_after_write(keys: Seq<bool>, code: int, other: int, down: bool)
    requires
        0 <= code < keys.len(),
        0 <= other < keys.len(),
        other != code,
    ensures
        keys.update(code, down)[code] == down,
        keys.update(code, down)[other] == keys[other],
        keys.update(code, down).len() == keys.len(),
{
}

/// What the window reports that the main loop reacts to.
pub enum WindowInput {
    /// The window was closed.
    Closed,
    /// A key went down; `code` is none for a key without a code.
    KeyPressed { code: Option<usize> },
    /// A key went up; `code` is none for a key without a code.
    KeyReleased { code: Option<usize> },
    /// Anything else.
    Other,
}

/// The key state and whether the main loop goes on.
pub struct InputState {
    pub keys: KeyStates,
    pub running: bool,
}

/// The key state and running flag after `input`, where `escape` is the code
/// of the key that ends the loop: a key that goes down is held, and if the
/// escape key is then held the loop stops; a key that goes up is let go;
/// closing the window stops the loop.
pub open spec fn next_input(
    keys: Seq<bool>,
    running: bool,
    input: WindowInput,
    escape: int,
) -> (Seq<bool>, bool) {
    match input {
        WindowInput::Closed => (keys, false),
        WindowInput::KeyPressed { code: Some(c) } => {
            let keys = keys.update(c as int, true);
            (keys, running && !keys[escape])
        },
        WindowInput::KeyReleased { code: Some(c) } => (keys.update(c as int, false), running),
        _ => (keys, running),
    }
}

/// The codes that `input` names lie below `len`.
pub open spec fn input_code_below(input: WindowInput, len: nat) -> bool {
    match input {
        WindowInput::KeyPressed { code: Some(c) } => c < len,
        WindowInput::KeyReleased { code: Some(c) } => c < len,
        _ => true,
    }
}

impl InputState {
    /// No key held, and the loop running.
    pub fn new() -> (s: InputState)
        ensures
            s.keys@ == Seq::new(KEY_COUNT as nat, |i: int| false),
            s.running,
    {
        InputState { keys: KeyStates::new(), running: true }
    }

    /// Reacts to `input`; `escape` is the code of the key that ends the loop.
    pub fn handle(&mut self, input: WindowInput, escape: usize)
        requires
            escape < old(self).keys@.len(),
            input_code_below(input, old(self).keys@.len()),
        ensures
            (final(self).keys@, final(self).running) == next_input(
                old(self).keys@,
                old(self).running,
                input,
                escape as int,
            ),
            final(self).keys@.len() == old(self).keys@.len(),
            input matches WindowInput::KeyPressed { code: Some(c) } ==> {
                &&& final(self).keys@[c as int]
                &&& forall|o: int| 0 <= o < old(self).keys@.len() && o != c ==> #[trigger] final(self).keys@[o] == old(self).keys@[o]
                &&& final(self).running == (old(self).running && !final(self).keys@[escape as int])
            },
            input matches WindowInput::KeyReleased { code: Some(c) } ==> {
                &&& !final(self).keys@[c as int]
                &&& forall|o: int| 0 <= o < old(self).keys@.len() && o != c ==> #[trigger] final(self).keys@[o] == old(self).keys@[o]
                &&& final(self).running == old(self).running
            },
            input is Closed ==> final(self).keys@ == old(self).keys@ && !final(self).running,
            (input is Other || input matches WindowInput::KeyPressed { code: None } || input matches WindowInput::KeyReleased { code: None }) ==> final(self).keys@ == old(self).keys@ && final(self).running == old(self).running,
    {
        proof {
            lemma_input_touches_one_key(old(self).keys@, old(self).running, input, escape as int);
        }
        match input {
            WindowInput::Closed => {
                self.running = false;
            },
            WindowInput::KeyPressed { code: Some(c) } => {
                self.keys.press(c);
                if self.keys.is_pressed(escape) {
                    self.running = false;
                }
            },
            WindowInput::KeyReleased { code: Some(c) } => {
                self.keys.release(c);
            },
            _ => {},
        }
    }
}

/// A key going down holds that key, a key going up lets that key go, and
/// neither changes any other key; a key going up never stops the loop, and a
/// key going down stops it exactly when the escape key is then held.
pub proof fn lemma_input_touches_one_key(keys: Seq<bool>, running: bool, input: WindowInput, escape: int)
    requires
        input_code_below(input, keys.len()),
    ensures
        next_input(keys, running, input, escape).0.len() == keys.len(),
        input matches WindowInput::KeyPressed { code: Some(c) } ==> {
            &&& next_input(keys, running, input, escape).0[c as int]
            &&& forall|o: int| 0 <= o < keys.len() && o != c ==> #[trigger] next_input(keys, running, input, escape).0[o] == keys[o]
            &&& next_input(keys, running, input, escape).1 == (running && !next_input(keys, running, input, escape).0[escape])
        },
        input matches WindowInput::KeyReleased { code: Some(c) } ==> {
            &&& !next_input(keys, running, input, escape).0[c as int]
            &&& forall|o: int| 0 <= o < keys.len() && o != c ==> #[trigger] next_input(keys, running, input, escape).0[o] == keys[o]
            &&& next_input(keys, running, input, escape).1 == running
        },
        input is Closed ==> next_input(keys, running, input, escape).0 == keys && !next_input(keys, running, input, escape).1,
        (input is Other || input matches WindowInput::KeyPressed { code: None } || input matches WindowInput::KeyReleased { code: None }) ==> next_input(keys, running, input, escape) == (keys, running),
{
}

/// Once the loop has stopped no input starts it again, and closing the
/// window always stops it.
pub proof fn lemma_stop_is_final(keys: Seq<bool>, running: bool, input: WindowInput, escape: int)
    ensures
        !running ==> !next_input(keys, running, input, escape).1,
        input is Closed ==> !next_input(keys, running, input, escape).1,
{
}

/// Pressing any key while the escape key is held stops the loop.
pub proof fn lemma_escape_stops(keys: Seq<bool>, running: bool, code: usize, escape: int)
    requires
        0 <= escape < keys.len(),
        code < keys.len(),
        keys[escape] || code == escape,
    ensures
        !next_input(keys, running, WindowInput::KeyPressed { code: Some(code) }, escape).1,
{
}


/// A step that the camera takes while a key is held: a move along its right,
/// forward or up direction, or a turn of its pitch or yaw.
#[derive(Clone, Copy, Debug, PartialEq, Eq, Structural)]
pub enum CameraMove {
    Left,
    Right,
    Forward,
    Backward,
    Down,
    Up,
    PitchUp,
    PitchDown,
    YawLeft,
    YawRight,
}

/// The key codes that steer the camera.
pub struct CameraKeys {
    pub left: usize,
    pub right: usize,
    pub forward: usize,
    pub backward: usize,
    pub down: usize,
    pub up: usize,
    pub pitch_up: usize,
    pub pitch_down: usize,
    pub yaw_left: usize,
    pub yaw_right: usize,
}

/// Whether every code of `c` lies below `len`.
pub open spec fn camera_keys_below(c: CameraKeys, len: nat) -> bool {
    &&& c.left < len
    &&& c.right < len
    &&& c.forward < len
    &&& c.backward < len
    &&& c.down < len
    &&& c.up < len
    &&& c.pitch_up < len
    &&& c.pitch_down < len
    &&& c.yaw_left < len
    &&& c.yaw_right < len
}

/// `m` alone if `held`, else nothing.
pub open spec fn move_if(held: bool, m: CameraMove) -> Seq<CameraMove> {
    if held {
        seq![m]
    } else {
        Seq::empty()
    }
}

/// The moves that the held keys ask for, in a fixed order: left, right,
/// forward, backward, down, up, pitch up, pitch down, yaw left, yaw right.
pub open spec fn moves_of(keys: Seq<bool>, c: CameraKeys) -> Seq<CameraMove> {
    move_if(keys[c.left as int], CameraMove::Left)
        + move_if(keys[c.right as int], CameraMove::Right)
        + move_if(keys[c.forward as int], CameraMove::Forward)
        + move_if(keys[c.backward as int], CameraMove::Backward)
        + move_if(keys[c.down as int], CameraMove::Down)
        + move_if(keys[c.up as int], CameraMove::Up)
        + move_if(keys[c.pitch_up as int], CameraMove::PitchUp)
        + move_if(keys[c.pitch_down as int], CameraMove::PitchDown)
        + move_if(keys[c.yaw_left as int], CameraMove::YawLeft)
        + move_if(keys[c.yaw_right as int], CameraMove::YawRight)
}

/// Appending `m` if `held` adds `m` to what the moves contain, and nothing
/// else.
proof fn lemma_contains_move_if(a: Seq<CameraMove>, held: bool, m: CameraMove)
    ensures
        forall|x: CameraMove| #[trigger] (a + move_if(held, m)).contains(x) <==> a.contains(x) || (held && x == m),
{
    let b = a + move_if(held, m);
    assert forall|x: CameraMove| #[trigger] b.contains(x) <==> a.contains(x) || (held && x == m) by {
        if b.contains(x) {
            let i = choose|i: int| 0 <= i < b.len() && b[i] == x;
            if i < a.len() {
                assert(a[i] == x);
            }
        }
        if a.contains(x) {
            let i = choose|i: int| 0 <= i < a.len() && a[i] == x;
            assert(b[i] == x);
        }
        if held && x == m {
            assert(b[a.len() as int] == x);
        }
    }
}

/// Each camera move is asked for exactly when its own key is held: left by
/// the left key, forward by the forward key, and so on, whatever the other
/// keys are.
#[verifier::spinoff_prover]
#[verifier::rlimit(40)]
pub proof fn lemma_moves_follow_keys(keys: Seq<bool>, c: CameraKeys)
    ensures
        moves_of(keys, c).contains(CameraMove::Left) <==> keys[c.left as int],
        moves_of(keys, c).contains(CameraMove::Right) <==> keys[c.right as int],
        moves_of(keys, c).contains(CameraMove::Forward) <==> keys[c.forward as int],
        moves_of(keys, c).contains(CameraMove::Backward) <==> keys[c.backward as int],
        moves_of(keys, c).contains(CameraMove::Down) <==> keys[c.down as int],
        moves_of(keys, c).contains(CameraMove::Up) <==> keys[c.up as int],
        moves_of(keys, c).contains(CameraMove::PitchUp) <==> keys[c.pitch_up as int],
        moves_of(keys, c).contains(CameraMove::PitchDown) <==> keys[c.pitch_down as int],
        moves_of(keys, c).contains(CameraMove::YawLeft) <==> keys[c.yaw_left as int],
        moves_of(keys, c).contains(CameraMove::YawRight) <==> keys[c.yaw_right as int],
{
    let e = Seq::<CameraMove>::empty();
    let s1 = e + move_if(keys[c.left as int], CameraMove::Left);
    let s2 = s1 + move_if(keys[c.right as int], CameraMove::Right);
    let s3 = s2 + move_if(keys[c.forward as int], CameraMove::Forward);
    let s4 = s3 + move_if(keys[c.backward as int], CameraMove::Backward);
    let s5 = s4 + move_if(keys[c.down as int], CameraMove::Down);
    let s6 = s5 + move_if(keys[c.up as int], CameraMove::Up);
    let s7 = s6 + move_if(keys[c.pitch_up as int], CameraMove::PitchUp);
    let s8 = s7 + move_if(keys[c.pitch_down as int], CameraMove::PitchDown);
    let s9 = s8 + move_if(keys[c.yaw_left as int], CameraMove::YawLeft);
    let s10 = s9 + move_if(keys[c.yaw_right as int], CameraMove::YawRight);
    lemma_contains_move_if(e, keys[c.left as int], CameraMove::Left);
    lemma_contains_move_if(s1, keys[c.right as int], CameraMove::Right);
    lemma_contains_move_if(s2, keys[c.forward as int], CameraMove::Forward);
    lemma_contains_move_if(s3, keys[c.backward as int], CameraMove::Backward);
    lemma_contains_move_if(s4, keys[c.down as int], CameraMove::Down);
    lemma_contains_move_if(s5, keys[c.up as int], CameraMove::Up);
    lemma_contains_move_if(s6, keys[c.pitch_up as int], CameraMove::PitchUp);
    lemma_contains_move_if(s7, keys[c.pitch_down as int], CameraMove::PitchDown);
    lemma_contains_move_if(s8, keys[c.yaw_left as int], CameraMove::YawLeft);
    lemma_contains_move_if(s9, keys[c.yaw_right as int], CameraMove::YawRight);
    assert(moves_of(keys, c) =~= s10);
    assert(!e.contains(CameraMove::Left));
    assert(!e.contains(CameraMove::Right));
    assert(!e.contains(CameraMove::Forward));
    assert(!e.contains(CameraMove::Backward));
    assert(!e.contains(CameraMove::Down));
    assert(!e.contains(CameraMove::Up));
    assert(!e.contains(CameraMove::PitchUp));
    assert(!e.contains(CameraMove::PitchDown));
    assert(!e.contains(CameraMove::YawLeft));
    assert(!e.contains(CameraMove::YawRight));
}

/// Appends `m` to `moves` if `held`.
fn push_if(moves: &mut Vec<CameraMove>, held: bool, m: CameraMove)
    ensures
        final(moves)@ == old(moves)@ + move_if(held, m),
{
    if held {
        moves.push(m);
    }
    assert(moves@ =~= old(moves)@ + move_if(held, m));
}

/// The camera moves that the keys held in `keys` ask for.
pub fn camera_moves(keys: &KeyStates, controls: &CameraKeys) -> (moves: Vec<CameraMove>)
    requires
        camera_keys_below(*controls, keys@.len()),
    ensures
        moves@ == moves_of(keys@, *controls),
        moves@.contains(CameraMove::Left) <==> keys@[controls.left as int],
        moves@.contains(CameraMove::Right) <==> keys@[controls.right as int],
        moves@.contains(CameraMove::Forward) <==> keys@[controls.forward as int],
        moves@.contains(CameraMove::Backward) <==> keys@[controls.backward as int],
        moves@.contains(CameraMove::Down) <==> keys@[controls.down as int],
        moves@.contains(CameraMove::Up) <==> keys@[controls.up as int],
        moves@.contains(CameraMove::PitchUp) <==> keys@[controls.pitch_up as int],
        moves@.contains(CameraMove::PitchDown) <==> keys@[controls.pitch_down as int],
        moves@.contains(CameraMove::YawLeft) <==> keys@[controls.yaw_left as int],
        moves@.contains(CameraMove::YawRight) <==> keys@[controls.yaw_right as int],
{
    proof {
        lemma_moves_follow_keys(keys@, *controls);
    }
    let mut moves: Vec<CameraMove> = Vec::new();
    push_if(&mut moves, keys.is_pressed(controls.left), CameraMove::Left);
    push_if(&mut moves, keys.is_pressed(controls.right), CameraMove::Right);
    push_if(&mut moves, keys.is_pressed(controls.forward), CameraMove::Forward);
    push_if(&mut moves, keys.is_pressed(controls.backward), CameraMove::Backward);
    push_if(&mut moves, keys.is_pressed(controls.down), CameraMove::Down);
    push_if(&mut moves, keys.is_pressed(controls.up), CameraMove::Up);
    push_if(&mut moves, keys.is_pressed(controls.pitch_up), CameraMove::PitchUp);
    push_if(&mut moves, keys.is_pressed(controls.pitch_down), CameraMove::PitchDown);
    push_if(&mut moves, keys.is_pressed(controls.yaw_left), CameraMove::YawLeft);
    push_if(&mut moves, keys.is_pressed(controls.yaw_right), CameraMove::YawRight);
    assert(moves@ =~= moves_of(keys@, *controls));
    moves
}

} // verus!
