//! The part of a language's syntax that reaches over the end of a line.
use vstd::prelude::*;

verus! {

/// The highlight state at the end of a row.
#[derive(Clone, Copy, PartialEq, Eq, Structural, Debug)]
pub enum HlState {
    /// Normal state.
    Normal,
    /// A multi-line comment has been open, but not yet closed.
    MultiLineComment,
}

/// The syntax configuration of a language.
pub struct Conf {
    /// The name of the language, e.g. "Rust".
    pub name: String,
    /// The tokens that start and end a multi-line comment, e.g. `/*` and `*/`.
    pub ml_comment_delims: Option<(Vec<u8>, Vec<u8>)>,
}

pub struct ConfView {
    pub name: Seq<char>,
    pub ml_comment_delims: Option<(Seq<u8>, Seq<u8>)>,
}

impl View for Conf {
    type V = ConfView;

    open spec fn view(&self) -> ConfView {
        ConfView {
            name: self.name@,
            ml_comment_delims: match self.ml_comment_delims {
                Some((start, end)) => Some((start@, end@)),
                None => None,
            },
        }
    }
}

/// Whether the bytes from position `i` on begin with `token`.
pub open spec fn stands_at(bytes: Seq<u8>, token: Seq<u8>, i: int) -> bool {
    i + token.len() <= bytes.len() && bytes.subrange(i, i + token.len()) == token
}

/// The length of a token; an empty one is passed over like a single byte.
pub open spec fn step(token: Seq<u8>) -> nat {
    if token.len() == 0 {
        1
    } else {
        token.len()
    }
}

/// The state at the end of `bytes` if the state is `state` at position `i`: the start token
/// opens a comment, and the next end token closes it.
pub open spec fn state_from(
    bytes: Seq<u8>,
    start: Seq<u8>,
    end: Seq<u8>,
    i: nat,
    state: HlState,
) -> HlState
    decreases bytes.len() - i,
{
    if i >= bytes.len() {
        state
    } else {
        match state {
            HlState::Normal => if stands_at(bytes, start, i as int) {
                state_from(bytes, start, end, i + step(start), HlState::MultiLineComment)
            } else {
                state_from(bytes, start, end, i + 1, state)
            },
            HlState::MultiLineComment => if stands_at(bytes, end, i as int) {
                state_from(bytes, start, end, i + step(end), HlState::Normal)
            } else {
                state_from(bytes, start, end, i + 1, state)
            },
        }
    }
}

impl ConfView {
    /// The state at the end of a row, given the state at the end of the row before it.
    pub open spec fn next_state(self, bytes: Seq<u8>, state: HlState) -> HlState {
        match self.ml_comment_delims {
            Some((start, end)) => state_from(bytes, start, end, 0, state),
            None => state,
        }
    }
}

fn token_at(bytes: &Vec<u8>, token: &Vec<u8>, i: usize) -> (r: bool)
    requires
        i <= bytes@.len(),
    ensures
        r == stands_at(bytes@, token@, i as int),
{
    let n = bytes.len();
    if token.len() > n - i {
        return false;
    }
    let mut k: usize = 0;
    while k < token.len()
        invariant
            k <= token@.len(),
            n == bytes@.len(),
            i + token@.len() <= n,
            forall|j: int| 0 <= j < k ==> bytes@[i + j] == token@[j],
        decreases token@.len() - k,
    {
        if bytes[i + k] != token[k] {
            assert(bytes@.subrange(i as int, i + token@.len())[k as int] != token@[k as int]);
            return false;
        }
        k = k + 1;
    }
    assert(bytes@.subrange(i as int, i + token@.len()) == token@);
    true
}

impl Conf {
    /// No particular language.
    pub fn plain() -> (r: Conf)
        ensures
            r@.name == Seq::<char>::empty(),
            r@.ml_comment_delims is None,
    {
        Conf { name: String::new(), ml_comment_delims: None }
    }

    /// The state at the end of a row, given the state at the end of the row before it.
    pub fn next_state(&self, bytes: &Vec<u8>, state: HlState) -> (r: HlState)
        ensures
            r == self@.next_state(bytes@, state),
    {
        match &self.ml_comment_delims {
            None => state,
            Some((start, end)) => {
                let n = bytes.len();
                let mut s = state;
                let mut i: usize = 0;
                while i < n
                    invariant
                        n == bytes@.len(),
                        state_from(bytes@, start@, end@, i as nat, s) == state_from(
                            bytes@,
                            start@,
                            end@,
                            0,
                            state,
                        ),
                    decreases n - i,
                {
                    let open = s == HlState::Normal;
                    let token = if open { start } else { end };
                    if token_at(bytes, token, i) {
                        s = if open { HlState::MultiLineComment } else { HlState::Normal };
                        i = if token.len() == 0 { i + 1 } else { i + token.len() };
                    } else {
                        i = i + 1;
                    }
                }
                s
            },
        }
    }
}

} // verus!
