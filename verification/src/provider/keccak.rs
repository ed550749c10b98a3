//! The Keccak-256 transcript from which challenges are drawn.
use crate::errors::{ErrorModel, SpartanError};
use crate::traits::{self, Engine, ScalarField, TranscriptReprTrait};
use std::marker::PhantomData;
use vstd::prelude::*;

verus! {

/// Prefix of the first input ("NoTR").
pub const PERSONA_TAG: [u8; 4] = [78, 111, 84, 82];

/// Separator in front of every challenge ("NoDS").
pub const DOM_SEP_TAG: [u8; 4] = [78, 111, 68, 83];

/// Number of bytes in the state of a transcript.
pub const KECCAK256_STATE_SIZE: usize = 64;

/// The Keccak-256 digest of `data`.
pub uninterp spec fn keccak256_of(data: Seq<u8>) -> Seq<u8>;

/// The Keccak-256 digest of `data`.
///
/// Calls `sha3::Digest::digest` for `sha3::Keccak256`. The contract says that the 32 bytes are a
/// function of the input; which function is left to the name.
#[verifier::external_body]
pub(crate) fn keccak256(data: &[u8]) -> (digest: [u8; 32])
    ensures
        digest@ == keccak256_of(data@),
{
    <sha3::Keccak256 as sha3::Digest>::digest(data).into()
}

/// What a transcript holds.
pub struct TranscriptModel {
    /// Number of challenges drawn so far.
    pub round: int,
    /// The state left by the last challenge.
    pub state: Seq<u8>,
    /// What was absorbed since the last challenge.
    pub pending: Seq<u8>,
}

/// The state that follows an input: the digests of the input with a zero and with a one appended.
pub open spec fn updated_state(input: Seq<u8>) -> Seq<u8> {
    keccak256_of(input.push(0)) + keccak256_of(input.push(1))
}

impl TranscriptModel {
    /// A transcript that starts from `label`.
    pub open spec fn start(label: Seq<u8>) -> TranscriptModel {
        TranscriptModel {
            round: 0,
            state: updated_state(PERSONA_TAG@ + label),
            pending: Seq::empty(),
        }
    }

    /// This transcript after absorbing `bytes` under `label`.
    pub open spec fn absorb(self, label: Seq<u8>, bytes: Seq<u8>) -> TranscriptModel {
        TranscriptModel { pending: self.pending + label + bytes, ..self }
    }

    /// Whether another challenge can be drawn.
    pub open spec fn can_squeeze(self) -> bool {
        self.round < u16::MAX
    }

    /// The digest from which the next challenge is drawn.
    pub open spec fn digest(self, label: Seq<u8>) -> Seq<u8> {
        updated_state(
            self.pending + DOM_SEP_TAG@ + vstd::bytes::spec_u16_to_le_bytes(self.round as u16)
                + self.state + label,
        )
    }

    /// This transcript after drawing a challenge under `label`.
    pub open spec fn squeeze(self, label: Seq<u8>) -> TranscriptModel {
        TranscriptModel {
            round: self.round + 1,
            state: self.digest(label),
            pending: Seq::empty(),
        }
    }
}

/// Challenges drawn one after the other.
pub struct Challenges {
    /// The integers that the challenges stand for.
    pub values: Seq<int>,
    /// The transcript after the draws.
    pub end: TranscriptModel,
    /// Whether the transcript gave all of them.
    pub complete: bool,
}

/// `n` challenges drawn under `label`.
pub open spec fn squeeze_many<E: Engine>(t: TranscriptModel, label: Seq<u8>, n: nat) -> Challenges
    decreases n,
{
    if n == 0 {
        Challenges { values: Seq::empty(), end: t, complete: true }
    } else {
        let before = squeeze_many::<E>(t, label, (n - 1) as nat);
        if !before.complete {
            before
        } else if !before.end.can_squeeze() {
            Challenges { complete: false, ..before }
        } else {
            Challenges {
                values: before.values.push(E::Scalar::uniform_of(before.end.digest(label))),
                end: before.end.squeeze(label),
                complete: true,
            }
        }
    }
}

/// Draws that ran out of challenges stay where they are.
pub proof fn lemma_squeeze_many_stops<E: Engine>(
    t: TranscriptModel,
    label: Seq<u8>,
    k: nat,
    n: nat,
)
    requires
        k <= n,
        !squeeze_many::<E>(t, label, k).complete,
    ensures
        squeeze_many::<E>(t, label, n) == squeeze_many::<E>(t, label, k),
    decreases n,
{
    if k < n {
        lemma_squeeze_many_stops::<E>(t, label, k, (n - 1) as nat);
    }
}

/// Complete draws give as many challenges as were asked for.
pub proof fn lemma_squeeze_many_len<E: Engine>(t: TranscriptModel, label: Seq<u8>, n: nat)
    requires
        squeeze_many::<E>(t, label, n).complete,
    ensures
        squeeze_many::<E>(t, label, n).values.len() == n,
    decreases n,
{
    if n > 0 {
        lemma_squeeze_many_len::<E>(t, label, (n - 1) as nat);
    }
}

/// The digests of `input` with a zero and with a one appended.
fn compute_updated_state(input: Vec<u8>) -> (state: Vec<u8>)
    ensures
        state@ == updated_state(input@),
        state@.len() == KECCAK256_STATE_SIZE,
{
    let mut lo = input;
    let ghost plain = lo@;
    lo.push(0);
    let mut state: Vec<u8> = Vec::new();
    state.extend_from_slice(&keccak256(lo.as_slice()));
    let _last = lo.pop();
    assert(lo@ =~= plain);
    lo.push(1);
    state.extend_from_slice(&keccak256(lo.as_slice()));
    assert(state@ =~= updated_state(plain));
    state
}

/// A transcript based on Keccak-256.
pub struct Keccak256Transcript<E: Engine> {
    round: u16,
    state: Vec<u8>,
    pending: Vec<u8>,
    _p: PhantomData<E>,
}

impl<E: Engine> View for Keccak256Transcript<E> {
    type V = TranscriptModel;

    closed spec fn view(&self) -> TranscriptModel {
        TranscriptModel { round: self.round as int, state: self.state@, pending: self.pending@ }
    }
}

impl<E: Engine> Keccak256Transcript<E> {
    /// Starts a transcript from `label`.
    pub fn new(label: &[u8]) -> (t: Self)
        ensures
            t@ == TranscriptModel::start(label@),
    {
        let mut input: Vec<u8> = Vec::new();
        input.extend_from_slice(&PERSONA_TAG);
        input.extend_from_slice(label);
        assert(input@ =~= PERSONA_TAG@ + label@);
        let state = compute_updated_state(input);
        let t = Keccak256Transcript { round: 0, state, pending: Vec::new(), _p: PhantomData };
        assert(t@.pending =~= Seq::empty());
        t
    }

    /// Absorbs `bytes` under `label`.
    pub fn absorb_bytes(&mut self, label: &[u8], bytes: &[u8])
        ensures
            final(self)@ == old(self)@.absorb(label@, bytes@),
    {
        self.pending.extend_from_slice(label);
        self.pending.extend_from_slice(bytes);
        assert(self.pending@ =~= old(self)@.absorb(label@, bytes@).pending);
    }

    /// Absorbs `o` under `label`.
    pub fn absorb<T: TranscriptReprTrait>(&mut self, label: &[u8], o: &T)
        ensures
            final(self)@ == old(self)@.absorb(label@, o.transcript_repr()),
    {
        let bytes = o.to_transcript_bytes();
        self.absorb_bytes(label, bytes.as_slice());
    }

    /// Draws a challenge under `label`.
    ///
    /// No more than 65535 challenges can be drawn; after them the transcript stays as it is.
    pub fn squeeze(&mut self, label: &[u8]) -> (r: Result<E::Scalar, SpartanError>)
        ensures
            r is Ok <==> old(self)@.can_squeeze(),
            r matches Ok(c) ==> {
                &&& c.val() == E::Scalar::uniform_of(old(self)@.digest(label@))
                &&& final(self)@ == old(self)@.squeeze(label@)
            },
            r matches Err(e) ==> {
                &&& e == SpartanError::InternalTranscriptError
                &&& final(self)@ == old(self)@
            },
    {
        if self.round == u16::MAX {
            return Err(SpartanError::InternalTranscriptError);
        }
        let mut input: Vec<u8> = Vec::new();
        input.extend_from_slice(self.pending.as_slice());
        input.extend_from_slice(&DOM_SEP_TAG);
        let round = vstd::bytes::u16_to_le_bytes(self.round);
        input.extend_from_slice(round.as_slice());
        input.extend_from_slice(self.state.as_slice());
        input.extend_from_slice(label);
        assert(input@ =~= self@.pending + DOM_SEP_TAG@ + vstd::bytes::spec_u16_to_le_bytes(
            self@.round as u16,
        ) + self@.state + label@);
        let output = compute_updated_state(input);
        let challenge = E::Scalar::from_digest(output.as_slice());
        self.round = self.round + 1;
        self.state = output;
        self.pending = Vec::new();
        assert(self@.pending =~= Seq::empty());
        Ok(challenge)
    }

    /// Draws `n` challenges under `label`.
    pub fn squeeze_n(&mut self, label: &[u8], n: usize) -> (r: Result<Vec<E::Scalar>, SpartanError>)
        ensures
            ({
                let c = squeeze_many::<E>(old(self)@, label@, n as nat);
                &&& final(self)@ == c.end
                &&& r is Ok <==> c.complete
                &&& r matches Ok(v) ==> traits::vals(v@) == c.values && v@.len() == n
                &&& r matches Err(e) ==> e@ == ErrorModel::InternalTranscriptError
            }),
    {
        let ghost start = self@;
        let mut v: Vec<E::Scalar> = Vec::new();
        assert(traits::vals(v@) =~= Seq::empty());
        for i in 0..n
            invariant
                start == old(self)@,
                v@.len() == i,
                squeeze_many::<E>(start, label@, i as nat) == (Challenges {
                    values: traits::vals(v@),
                    end: self@,
                    complete: true,
                }),
        {
            let ghost before = v@;
            match self.squeeze(label) {
                Ok(c) => {
                    v.push(c);
                    assert(traits::vals(v@) =~= traits::vals(before).push(c.val()));
                },
                Err(e) => {
                    proof {
                        lemma_squeeze_many_stops::<E>(start, label@, (i + 1) as nat, n as nat);
                    }
                    return Err(e);
                },
            }
        }
        Ok(v)
    }
}

/// Two inputs that Keccak-256 does not tell apart, or an input with a digest of another length than
/// 32 bytes.
pub open spec fn keccak256_fails() -> bool {
    ||| exists|x: Seq<u8>, y: Seq<u8>|
        x != y && #[trigger] keccak256_of(x) == #[trigger] keccak256_of(y)
    ||| exists|x: Seq<u8>| (#[trigger] keccak256_of(x)).len() != 32
}

/// The state that follows an input has 64 bytes and determines the input, unless Keccak-256 fails.
pub proof fn law_state_determines_input(x: Seq<u8>, y: Seq<u8>)
    ensures
        updated_state(x).len() == 64 || keccak256_fails(),
        updated_state(x) == updated_state(y) ==> x == y || keccak256_fails(),
        updated_state(x).subrange(0, 32) == keccak256_of(x + seq![0u8]) || keccak256_fails(),
        updated_state(x).subrange(32, 64) == keccak256_of(x + seq![1u8]) || keccak256_fails(),
{
    let (x0, x1, y0) = (x.push(0), x.push(1), y.push(0));
    assert(x0 =~= x + seq![0u8]);
    assert(x1 =~= x + seq![1u8]);
    if !keccak256_fails() {
        assert(keccak256_of(x0).len() == 32);
        assert(keccak256_of(x1).len() == 32);
        assert(keccak256_of(y0).len() == 32);
        assert(updated_state(x).subrange(0, 32) =~= keccak256_of(x0));
        assert(updated_state(x).subrange(32, 64) =~= keccak256_of(x1));
        assert(updated_state(y).subrange(0, 32) =~= keccak256_of(y0));
        if updated_state(x) == updated_state(y) {
            assert(x0 == y0);
            assert(x0.drop_last() =~= x);
            assert(y0.drop_last() =~= y);
        }
    }
}

/// Absorbing keeps the round and the state, and what is absorbed is the label and then the bytes.
/// Drawing counts the round, keeps the digest of the draw as the state, and forgets what was
/// absorbed. A draw is possible as long as fewer than 65535 were made.
pub proof fn law_transcript_steps(t: TranscriptModel, label: Seq<u8>, bytes: Seq<u8>)
    ensures
        TranscriptModel::start(label).round == 0,
        TranscriptModel::start(label).pending.len() == 0,
        t.absorb(label, bytes).round == t.round,
        t.absorb(label, bytes).state == t.state,
        t.absorb(label, bytes).pending == t.pending + (label + bytes),
        t.squeeze(label).round == t.round + 1,
        t.squeeze(label).state == t.digest(label),
        t.squeeze(label).pending.len() == 0,
        t.can_squeeze() <==> t.round < 65535,
{
    assert(t.pending + label + bytes =~= t.pending + (label + bytes));
}

/// A transcript starts from its label: other labels give other states, unless Keccak-256 fails.
pub proof fn law_start_binds(a: Seq<u8>, b: Seq<u8>)
    requires
        TranscriptModel::start(a).state == TranscriptModel::start(b).state,
    ensures
        a == b || keccak256_fails(),
{
    law_state_determines_input(PERSONA_TAG@ + a, PERSONA_TAG@ + b);
    assert((PERSONA_TAG@ + a).skip(4) =~= a);
    assert((PERSONA_TAG@ + b).skip(4) =~= b);
}

/// A digest is bound to everything that the transcript has seen: two transcripts with one digest
/// under labels of one length agree on what was absorbed, on the round, on the state and on the
/// label, unless Keccak-256 fails.
pub proof fn law_digest_binds(
    t: TranscriptModel,
    u: TranscriptModel,
    label: Seq<u8>,
    other: Seq<u8>,
)
    requires
        t.digest(label) == u.digest(other),
        label.len() == other.len(),
        t.state.len() == 64,
        u.state.len() == 64,
        0 <= t.round <= 65535,
        0 <= u.round <= 65535,
    ensures
        (t == u && label == other) || keccak256_fails(),
{
    vstd::bytes::lemma_auto_spec_u16_to_from_le_bytes();
    let (a, b) = (
        vstd::bytes::spec_u16_to_le_bytes(t.round as u16),
        vstd::bytes::spec_u16_to_le_bytes(u.round as u16),
    );
    let x = t.pending + DOM_SEP_TAG@ + a + t.state + label;
    let y = u.pending + DOM_SEP_TAG@ + b + u.state + other;
    law_state_determines_input(x, y);
    if !keccak256_fails() {
        let n = t.pending.len() as int;
        assert(u.pending.len() == n);
        assert(x.subrange(0, n) =~= t.pending);
        assert(y.subrange(0, n) =~= u.pending);
        assert(x.subrange(n + 4, n + 6) =~= a);
        assert(y.subrange(n + 4, n + 6) =~= b);
        assert(x.subrange(n + 6, n + 70) =~= t.state);
        assert(y.subrange(n + 6, n + 70) =~= u.state);
        assert(x.skip(n + 70) =~= label);
        assert(y.skip(n + 70) =~= other);
    }
}

/// `n` challenges can be drawn exactly if that many rounds are left. Each of them stands for the
/// digest of the transcript at its draw, and all rounds are counted.
pub proof fn law_challenges<E: Engine>(t: TranscriptModel, label: Seq<u8>, n: nat)
    requires
        t.round <= 65535,
    ensures
        ({
            let c = squeeze_many::<E>(t, label, n);
            &&& c.complete <==> t.round + n <= 65535
            &&& c.complete ==> c.values.len() == n && c.end.round == t.round + n
            &&& c.complete ==> forall|j: int|
                0 <= j < n ==> #[trigger] c.values[j] == E::Scalar::uniform_of(
                    squeeze_many::<E>(t, label, j as nat).end.digest(label),
                )
            &&& !c.complete ==> c.end.round == 65535
            &&& n == 1 && c.complete ==> c.end == t.squeeze(label)
        }),
    decreases n,
{
    if n > 0 {
        law_challenges::<E>(t, label, (n - 1) as nat);
        let before = squeeze_many::<E>(t, label, (n - 1) as nat);
        let c = squeeze_many::<E>(t, label, n);
        if c.complete {
            assert forall|j: int| 0 <= j < n implies #[trigger] c.values[j]
                == E::Scalar::uniform_of(
                squeeze_many::<E>(t, label, j as nat).end.digest(label),
            ) by {
                if j < n - 1 {
                    assert(c.values[j] == before.values[j]);
                }
            }
        }
        if n == 1 {
            reveal_with_fuel(squeeze_many, 2);
        }
    }
}

/// Drawing `a` challenges and then `b` more is drawing `a + b` challenges.
pub proof fn law_challenges_add<E: Engine>(t: TranscriptModel, label: Seq<u8>, a: nat, b: nat)
    requires
        squeeze_many::<E>(t, label, a + b).complete,
    ensures
        ({
            let first = squeeze_many::<E>(t, label, a);
            let second = squeeze_many::<E>(first.end, label, b);
            let all = squeeze_many::<E>(t, label, a + b);
            &&& first.complete
            &&& second.complete
            &&& all.values == first.values + second.values
            &&& all.end == second.end
        }),
    decreases b,
{
    let first = squeeze_many::<E>(t, label, a);
    let second = squeeze_many::<E>(first.end, label, b);
    let all = squeeze_many::<E>(t, label, a + b);
    if b == 0 {
        assert(all.values =~= first.values + second.values);
    } else {
        law_challenges_add::<E>(t, label, a, (b - 1) as nat);
        let before = squeeze_many::<E>(t, label, (a + b - 1) as nat);
        assert((a + b - 1) as nat == a + (b - 1) as nat);
        assert(all.values =~= first.values + second.values);
    }
}

/// Draws are bound to the transcript that they come from: two transcripts that the same draws leave
/// in the same state were equal before them, unless Keccak-256 fails.
pub proof fn law_draws_bind<E: Engine>(
    t: TranscriptModel,
    u: TranscriptModel,
    label: Seq<u8>,
    n: nat,
)
    requires
        t.state.len() == 64,
        u.state.len() == 64,
        0 <= t.round,
        0 <= u.round,
        squeeze_many::<E>(t, label, n).complete,
        squeeze_many::<E>(u, label, n).complete,
        squeeze_many::<E>(t, label, n).end == squeeze_many::<E>(u, label, n).end,
    ensures
        t == u || keccak256_fails(),
    decreases n,
{
    if n > 0 && !keccak256_fails() {
        let a = squeeze_many::<E>(t, label, (n - 1) as nat);
        let b = squeeze_many::<E>(u, label, (n - 1) as nat);
        lemma_drawn_state::<E>(t, label, (n - 1) as nat);
        lemma_drawn_state::<E>(u, label, (n - 1) as nat);
        law_digest_binds(a.end, b.end, label, label);
        law_draws_bind::<E>(t, u, label, (n - 1) as nat);
    }
}

/// The state that draws leave has 64 bytes.
proof fn lemma_drawn_state<E: Engine>(t: TranscriptModel, label: Seq<u8>, n: nat)
    requires
        t.state.len() == 64,
        0 <= t.round,
    ensures
        squeeze_many::<E>(t, label, n).end.state.len() == 64 || keccak256_fails(),
        squeeze_many::<E>(t, label, n).end.round >= 0,
    decreases n,
{
    if n > 0 {
        lemma_drawn_state::<E>(t, label, (n - 1) as nat);
        let before = squeeze_many::<E>(t, label, (n - 1) as nat).end;
        let input = before.pending + DOM_SEP_TAG@ + vstd::bytes::spec_u16_to_le_bytes(
            before.round as u16,
        ) + before.state + label;
        law_state_determines_input(input, input);
    }
}

} // verus!
