//! A terminal typing exerciser's core: an incremental prompt-matching engine
//! that tracks how far a typed buffer agrees with a target text, and a
//! table extractor that turns semi-structured ranking-page markup into
//! typed records.
//!
//! Everything here works on plain byte sequences; terminal handling, HTTP
//! fetching and JSON persistence live with the binary that drives the engine.

use vstd::prelude::*;

pub mod loggers;
pub mod prompts;
pub mod webscraping;

verus! {

/// Length of the longest common prefix of `typed` and `target`, scanning
/// from position `i`: the first index at or after `i` where the two
/// sequences diverge or either one ends.
pub open spec fn correct_len_from(typed: Seq<u8>, target: Seq<u8>, i: int) -> int
    decreases typed.len() - i,
{
    if 0 <= i < typed.len() && i < target.len() && typed[i] == target[i] {
        correct_len_from(typed, target, i + 1)
    } else {
        i
    }
}

/// Length of the correct span: the longest prefix on which `typed` and
/// `target` agree byte for byte.
pub open spec fn correct_len(typed: Seq<u8>, target: Seq<u8>) -> int {
    correct_len_from(typed, target, 0)
}

/// The correct span is bounded by both lengths, agrees byte for byte on
/// every index before it, and ends at a genuine mismatch or at the end of
/// the shorter sequence.
pub proof fn lemma_correct_len_from(typed: Seq<u8>, target: Seq<u8>, i: int)
    requires
        0 <= i <= typed.len(),
        i <= target.len(),
    ensures
        i <= correct_len_from(typed, target, i),
        correct_len_from(typed, target, i) <= typed.len(),
        correct_len_from(typed, target, i) <= target.len(),
        forall|j: int|
            i <= j < correct_len_from(typed, target, i) ==> typed[j] == target[j],
        correct_len_from(typed, target, i) < typed.len()
            && correct_len_from(typed, target, i) < target.len()
            ==> typed[correct_len_from(typed, target, i)]
                != target[correct_len_from(typed, target, i)],
    decreases typed.len() - i,
{
    if i < typed.len() && i < target.len() && typed[i] == target[i] {
        lemma_correct_len_from(typed, target, i + 1);
    }
}

/// The span decomposition law: the correct span and the incorrect span
/// together cover the typed buffer exactly, and the correct span is a
/// prefix of both the typed buffer and the target, ending at the first
/// mismatching byte (or at the end of the shorter sequence).
pub proof fn lemma_span_decomposition(typed: Seq<u8>, target: Seq<u8>)
    ensures
        0 <= correct_len(typed, target) <= typed.len(),
        correct_len(typed, target) <= target.len(),
        typed.subrange(0, correct_len(typed, target))
            == target.subrange(0, correct_len(typed, target)),
        typed.subrange(0, correct_len(typed, target)).len()
            + typed.subrange(correct_len(typed, target), typed.len() as int).len()
            == typed.len(),
        correct_len(typed, target) < typed.len() && correct_len(typed, target) < target.len()
            ==> typed[correct_len(typed, target)] != target[correct_len(typed, target)],
{
    lemma_correct_len_from(typed, target, 0);
    assert(typed.subrange(0, correct_len(typed, target))
        =~= target.subrange(0, correct_len(typed, target)));
}

/// A classified input event, as the prompt engine consumes it: a printable
/// character byte, a backspace, some other key, or the release phase of any
/// key. The raw terminal event decoding lives with the binary.
#[derive(Debug, Clone, Copy, PartialEq, Eq, Structural)]
pub enum KeyInput {
    Char(u8),
    Backspace,
    OtherKey,
    Release,
}

/// What one key event does to the typed buffer: a printable character is
/// appended, a backspace removes the last byte if there is one (and is a
/// safe no-op on an empty buffer), and every other event leaves the buffer
/// unchanged.
pub open spec fn apply_key_spec(typed: Seq<u8>, key: KeyInput) -> Seq<u8> {
    match key {
        KeyInput::Char(b) => typed.push(b),
        KeyInput::Backspace => if typed.len() > 0 {
            typed.drop_last()
        } else {
            typed
        },
        KeyInput::OtherKey => typed,
        KeyInput::Release => typed,
    }
}

/// Backspace on an empty buffer is a no-op, never an error.
pub proof fn lemma_backspace_on_empty(typed: Seq<u8>)
    requires
        typed.len() == 0,
    ensures
        apply_key_spec(typed, KeyInput::Backspace) == typed,
{
}

/// Appending a character and immediately backspacing restores the prior
/// buffer exactly, for any buffer and any character.
pub proof fn lemma_push_then_backspace(typed: Seq<u8>, b: u8)
    ensures
        apply_key_spec(apply_key_spec(typed, KeyInput::Char(b)), KeyInput::Backspace) == typed,
{
    assert(typed.push(b).drop_last() =~= typed);
}

/// No proper prefix of the target completes the round: completion demands
/// the whole target, byte for byte.
pub proof fn lemma_proper_prefix_incomplete(target: Seq<u8>, n: int)
    requires
        0 <= n < target.len(),
    ensures
        target.subrange(0, n) != target,
{
    assert(target.subrange(0, n).len() != target.len());
}

/// One round of a typing session: the target text to reproduce and the
/// buffer typed so far.
#[derive(Debug, Clone)]
pub struct TypeRacePrompt {
    prompt: Vec<u8>,
    input: Vec<u8>,
}

impl TypeRacePrompt {
    /// The target text, as a byte sequence.
    pub closed spec fn target(&self) -> Seq<u8> {
        self.prompt@
    }

    /// The buffer typed so far, as a byte sequence.
    pub closed spec fn typed(&self) -> Seq<u8> {
        self.input@
    }

    /// Starts a round with the given target text and an empty typed buffer.
    pub fn new(prompt: Vec<u8>) -> (r: Self)
        ensures
            r.target() == prompt@,
            r.typed() == Seq::<u8>::empty(),
    {
        let r = Self { prompt, input: Vec::new() };
        proof {
            assert(r.typed() =~= Seq::<u8>::empty());
        }
        r
    }

    /// True exactly when the typed buffer reproduces the target byte for
    /// byte, with no normalization.
    pub fn is_complete(&self) -> (r: bool)
        ensures
            r == (self.typed() == self.target()),
    {
        eq_bytes(self.input.as_slice(), self.prompt.as_slice())
    }

    /// Feeds one classified key event into the round: the typed buffer
    /// changes as `apply_key_spec` says, and the target never changes.
    pub fn apply_key(&mut self, key: KeyInput)
        ensures
            final(self).target() == old(self).target(),
            final(self).typed() == apply_key_spec(old(self).typed(), key),
    {
        match key {
            KeyInput::Char(b) => {
                self.input.push(b);
            },
            KeyInput::Backspace => {
                let _popped = self.input.pop();
            },
            KeyInput::OtherKey => {
            },
            KeyInput::Release => {
            },
        }
    }

    /// Length of the correct span of the typed buffer: how far it agrees
    /// with the target, byte for byte, from the start.
    fn correct_length(&self) -> (r: usize)
        ensures
            r == correct_len(self.typed(), self.target()),
    {
        let mut n: usize = 0;
        while n < self.input.len() && n < self.prompt.len() && self.input[n] == self.prompt[n]
            invariant
                0 <= n <= self.input.len(),
                correct_len(self.typed(), self.target())
                    == correct_len_from(self.typed(), self.target(), n as int),
            decreases self.input.len() - n,
        {
            n = n + 1;
        }
        n
    }

    /// Splits the typed buffer into its correct span (the prefix that
    /// matches the target) and its incorrect span (everything typed after
    /// the first divergence).
    pub fn split_input(&self) -> (r: (&[u8], &[u8]))
        ensures
            r.0@ == self.typed().subrange(0, correct_len(self.typed(), self.target())),
            r.1@ == self.typed().subrange(
                correct_len(self.typed(), self.target()),
                self.typed().len() as int,
            ),
            r.0@.len() + r.1@.len() == self.typed().len(),
    {
        proof {
            lemma_correct_len_from(self.typed(), self.target(), 0);
        }
        let n = self.correct_length();
        let correct = vstd::slice::slice_subrange(self.input.as_slice(), 0, n);
        let incorrect = vstd::slice::slice_subrange(self.input.as_slice(), n, self.input.len());
        (correct, incorrect)
    }

    /// The correct span alone.
    pub fn correct_input(&self) -> (r: &[u8])
        ensures
            r@ == self.typed().subrange(0, correct_len(self.typed(), self.target())),
    {
        self.split_input().0
    }

    /// The incorrect span alone.
    pub fn incorrect_input(&self) -> (r: &[u8])
        ensures
            r@ == self.typed().subrange(
                correct_len(self.typed(), self.target()),
                self.typed().len() as int,
            ),
    {
        self.split_input().1
    }

    /// The remaining span: the suffix of the target not yet attempted,
    /// empty once the typed buffer is at least as long as the target.
    pub fn remaining_input(&self) -> (r: &[u8])
        ensures
            r@ == if self.typed().len() <= self.target().len() {
                self.target().subrange(self.typed().len() as int, self.target().len() as int)
            } else {
                Seq::<u8>::empty()
            },
    {
        if self.input.len() <= self.prompt.len() {
            vstd::slice::slice_subrange(
                self.prompt.as_slice(),
                self.input.len(),
                self.prompt.len(),
            )
        } else {
            let r = vstd::slice::slice_subrange(self.prompt.as_slice(), 0, 0);
            proof {
                assert(r@ =~= Seq::<u8>::empty());
            }
            r
        }
    }

    /// The three display segments a renderer needs: matched, mismatched
    /// and unseen text. A pure projection of the round's state; layout and
    /// styling belong to the renderer.
    pub fn segments(&self) -> (r: (&[u8], &[u8], &[u8]))
        ensures
            r.0@ == self.typed().subrange(0, correct_len(self.typed(), self.target())),
            r.1@ == self.typed().subrange(
                correct_len(self.typed(), self.target()),
                self.typed().len() as int,
            ),
            r.2@ == if self.typed().len() <= self.target().len() {
                self.target().subrange(self.typed().len() as int, self.target().len() as int)
            } else {
                Seq::<u8>::empty()
            },
    {
        let (correct, incorrect) = self.split_input();
        let remaining = self.remaining_input();
        (correct, incorrect, remaining)
    }
}

/// A session-level event, as the driving loop classifies terminal input: a
/// quit signal ends the whole session, a skip signal abandons the current
/// round, a key event feeds the prompt engine, and anything else is ignored.
#[derive(Debug, Clone, Copy, PartialEq, Eq, Structural)]
pub enum SessionEvent {
    Quit,
    Skip,
    Key(KeyInput),
    Other,
}

/// Where a round stands after one event has been processed.
#[derive(Debug, Clone, Copy, PartialEq, Eq, Structural)]
pub enum RoundStatus {
    AwaitingInput,
    RoundComplete,
    RoundSkipped,
    SessionTerminated,
}

/// The round transition: quit terminates the session, skip abandons the
/// round, and any other event leaves the round complete exactly when the
/// buffer it produces reproduces the target.
pub open spec fn round_status_spec(typed: Seq<u8>, target: Seq<u8>, event: SessionEvent)
    -> RoundStatus {
    match event {
        SessionEvent::Quit => RoundStatus::SessionTerminated,
        SessionEvent::Skip => RoundStatus::RoundSkipped,
        SessionEvent::Key(k) => if apply_key_spec(typed, k) == target {
            RoundStatus::RoundComplete
        } else {
            RoundStatus::AwaitingInput
        },
        SessionEvent::Other => if typed == target {
            RoundStatus::RoundComplete
        } else {
            RoundStatus::AwaitingInput
        },
    }
}

impl TypeRacePrompt {
    /// One step of the driving loop's state machine: applies the event to
    /// the round and reports where the round now stands. The loop around it
    /// only performs I/O: it reads events, redraws, and obeys the returned
    /// status.
    pub fn advance(&mut self, event: SessionEvent) -> (r: RoundStatus)
        ensures
            final(self).target() == old(self).target(),
            final(self).typed() == (match event {
                SessionEvent::Key(k) => apply_key_spec(old(self).typed(), k),
                _ => old(self).typed(),
            }),
            r == round_status_spec(old(self).typed(), old(self).target(), event),
    {
        match event {
            SessionEvent::Quit => RoundStatus::SessionTerminated,
            SessionEvent::Skip => RoundStatus::RoundSkipped,
            SessionEvent::Key(k) => {
                self.apply_key(k);
                if self.is_complete() {
                    RoundStatus::RoundComplete
                } else {
                    RoundStatus::AwaitingInput
                }
            },
            SessionEvent::Other => {
                if self.is_complete() {
                    RoundStatus::RoundComplete
                } else {
                    RoundStatus::AwaitingInput
                }
            },
        }
    }
}

/// Byte-for-byte equality of two slices.
fn eq_bytes(a: &[u8], b: &[u8]) -> (r: bool)
    ensures
        r == (a@ == b@),
{
    if a.len() != b.len() {
        return false;
    }
    let mut i: usize = 0;
    while i < a.len()
        invariant
            0 <= i <= a.len(),
            a@.len() == b@.len(),
            forall|j: int| 0 <= j < i ==> a@[j] == b@[j],
        decreases a.len() - i,
    {
        if a[i] != b[i] {
            return false;
        }
        i = i + 1;
    }
    proof {
        assert(a@ =~= b@);
    }
    true
}

} // verus!
