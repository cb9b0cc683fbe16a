//! Channel decoders selectable by algorithm profile, and the registry that
//! dispatches a job to the decoder for its profile.
//!
//! The decoders are deterministic stubs: each flips a fixed bit mask in every
//! n-th input byte and reports fixed soft evidence. Scores are carried as the
//! IEEE-754 bit pattern of the `f64` value; the evidence document writes the
//! same values in the shortest decimal form.

use vstd::prelude::*;
use vstd::utf8::encode_utf8;

use crate::keyed::{owned, str_eq};
use crate::text::{json_string, json_string_list, push_json_string, push_utf8};
use crate::worker::models::JobSpec;

verus! {

/// What a decoder produced for one input.
#[derive(Debug, Clone)]
pub struct DecodeResult {
    pub algorithm_id: &'static str,
    pub profile_id: String,
    pub output_bytes: Vec<u8>,
    pub evidence_bytes: Vec<u8>,
    pub residual_score_bits: u64,
    pub quality_score_bits: u64,
}

/// Why the registry could not decode.
#[derive(Debug, PartialEq, Eq)]
pub enum AlgorithmError {
    UnsupportedProfile(String),
}

/// `input` with `mask` xor-ed into every byte whose index is a multiple of
/// `period`.
pub open spec fn flip_every(input: Seq<u8>, period: nat, mask: u8) -> Seq<u8> {
    Seq::new(input.len(), |i: int| if i % (period as int) == 0 { input[i] ^ mask } else { input[i] })
}

/// The soft-evidence JSON document: the fields of a soft-evidence bundle in
/// declaration order, compact, with the scores written as `confidence` and
/// `residual`.
pub open spec fn soft_evidence_json(
    algorithm_id: Seq<char>,
    profile_id: Seq<char>,
    confidence: Seq<char>,
    residual: Seq<char>,
    notes: Seq<Seq<char>>,
) -> Seq<u8> {
    encode_utf8("{\"schema_version\":"@) + json_string("1.0.0"@) + encode_utf8(",\"algorithm_id\":"@)
        + json_string(algorithm_id) + encode_utf8(",\"profile_id\":"@) + json_string(profile_id)
        + encode_utf8(",\"confidence_score\":"@) + encode_utf8(confidence) + encode_utf8(
        ",\"residual_score\":"@,
    ) + encode_utf8(residual) + encode_utf8(",\"notes\":["@) + json_string_list(notes) + encode_utf8(
        "]}"@,
    )
}

/// A decoder selectable by profile id.
pub trait DecoderAlgorithm {
    /// The decoder's algorithm id.
    spec fn id_spec(&self) -> Seq<char>;

    /// The one profile the decoder supports.
    spec fn profile_spec(&self) -> Seq<char>;

    /// The decoded bytes for `input`.
    spec fn output_spec(&self, input: Seq<u8>) -> Seq<u8>;

    /// The soft evidence for a job with profile `profile_id`.
    spec fn evidence_spec(&self, profile_id: Seq<char>) -> Seq<u8>;

    /// The residual score's bit pattern.
    spec fn residual_bits_spec(&self) -> u64;

    /// The quality score's bit pattern: one minus the residual score,
    /// clamped to the unit interval.
    spec fn quality_bits_spec(&self) -> u64;

    fn algorithm_id(&self) -> (r: &'static str)
        ensures
            r@ == self.id_spec(),
    ;

    fn supports(&self, profile_id: &str) -> (r: bool)
        ensures
            r == (profile_id@ == self.profile_spec()),
    ;

    fn decode(&self, job: &JobSpec, input: &[u8]) -> (r: DecodeResult)
        ensures
            r.algorithm_id@ == self.id_spec(),
            r.profile_id@ == job.algorithm_profile@,
            r.output_bytes@ == self.output_spec(input@),
            r.evidence_bytes@ == self.evidence_spec(job.algorithm_profile@),
            r.residual_score_bits == self.residual_bits_spec(),
            r.quality_score_bits == self.quality_bits_spec(),
    ;
}

/// Builds the soft-evidence document.
fn make_soft_evidence_bytes(
    algorithm_id: &str,
    profile_id: &str,
    confidence: &str,
    residual: &str,
    notes: &Vec<&str>,
) -> (r: Vec<u8>)
    ensures
        r@ == soft_evidence_json(
            algorithm_id@,
            profile_id@,
            confidence@,
            residual@,
            notes@.map_values(|n: &str| n@),
        ),
{
    let mut out: Vec<u8> = Vec::new();
    push_utf8(&mut out, "{\"schema_version\":");
    push_json_string(&mut out, "1.0.0");
    push_utf8(&mut out, ",\"algorithm_id\":");
    push_json_string(&mut out, algorithm_id);
    push_utf8(&mut out, ",\"profile_id\":");
    push_json_string(&mut out, profile_id);
    push_utf8(&mut out, ",\"confidence_score\":");
    push_utf8(&mut out, confidence);
    push_utf8(&mut out, ",\"residual_score\":");
    push_utf8(&mut out, residual);
    push_utf8(&mut out, ",\"notes\":[");
    let ghost before_notes = out@;
    let ghost views = notes@.map_values(|n: &str| n@);
    let mut k: usize = 0;
    while k < notes.len()
        invariant
            k <= notes@.len(),
            views == notes@.map_values(|n: &str| n@),
            out@ == before_notes + json_string_list(views.subrange(0, k as int)),
        decreases notes@.len() - k,
    {
        if k > 0 {
            out.push(44u8);
        }
        push_json_string(&mut out, notes[k]);
        proof {
            let pre = views.subrange(0, k as int + 1);
            assert(pre.drop_last() =~= views.subrange(0, k as int));
            assert(pre.last() == notes@[k as int]@);
            if k == 0 {
                assert(views.subrange(0, 0) =~= Seq::<Seq<char>>::empty());
            }
        }
        k = k + 1;
        assert(out@ =~= before_notes + json_string_list(views.subrange(0, k as int)));
    }
    assert(views.subrange(0, notes@.len() as int) =~= views);
    push_utf8(&mut out, "]}");
    assert(out@ =~= soft_evidence_json(algorithm_id@, profile_id@, confidence@, residual@, views));
    out
}

/// Copies `input`, xor-ing `mask` into every `period`-th byte.
fn flip_bytes(input: &[u8], period: usize, mask: u8) -> (r: Vec<u8>)
    requires
        period > 0,
    ensures
        r@ == flip_every(input@, period as nat, mask),
{
    let mut out: Vec<u8> = Vec::new();
    let mut i: usize = 0;
    while i < input.len()
        invariant
            i <= input@.len(),
            out@.len() == i,
            period > 0,
            forall|j: int|
                0 <= j < i ==> #[trigger] out@[j] == (if j % (period as int) == 0 {
                    input@[j] ^ mask
                } else {
                    input@[j]
                }),
        decreases input@.len() - i,
    {
        if i % period == 0 {
            out.push(input[i] ^ mask);
        } else {
            out.push(input[i]);
        }
        i = i + 1;
    }
    assert(out@ =~= flip_every(input@, period as nat, mask));
    out
}

/// Viterbi decoding for a binary symmetric channel.
pub struct ViterbiBasicBsc;

/// LDPC min-sum decoding.
pub struct LdpcMinSumBasic;

/// Turbo decoding.
pub struct TurboBasic;

impl DecoderAlgorithm for ViterbiBasicBsc {
    open spec fn id_spec(&self) -> Seq<char> {
        "viterbi"@
    }

    open spec fn profile_spec(&self) -> Seq<char> {
        "viterbi-basic-bsc"@
    }

    open spec fn output_spec(&self, input: Seq<u8>) -> Seq<u8> {
        flip_every(input, 5, 1)
    }

    open spec fn evidence_spec(&self, profile_id: Seq<char>) -> Seq<u8> {
        soft_evidence_json("viterbi"@, profile_id, "0.875"@, "0.125"@, seq!["path_metric=viterbi_stub"@])
    }

    /// 0.125
    open spec fn residual_bits_spec(&self) -> u64 {
        0x3FC0_0000_0000_0000
    }

    /// 0.875
    open spec fn quality_bits_spec(&self) -> u64 {
        0x3FEC_0000_0000_0000
    }

    fn algorithm_id(&self) -> (r: &'static str) {
        "viterbi"
    }

    fn supports(&self, profile_id: &str) -> (r: bool) {
        str_eq(profile_id, "viterbi-basic-bsc")
    }

    fn decode(&self, job: &JobSpec, input: &[u8]) -> (r: DecodeResult) {
        let notes: Vec<&str> = vec!["path_metric=viterbi_stub"];
        let evidence = make_soft_evidence_bytes(
            "viterbi",
            job.algorithm_profile.as_str(),
            "0.875",
            "0.125",
            &notes,
        );
        assert(notes@.map_values(|n: &str| n@) =~= seq!["path_metric=viterbi_stub"@]);
        DecodeResult {
            algorithm_id: self.algorithm_id(),
            profile_id: job.algorithm_profile.clone(),
            output_bytes: flip_bytes(input, 5, 1),
            evidence_bytes: evidence,
            residual_score_bits: 0x3FC0_0000_0000_0000,
            quality_score_bits: 0x3FEC_0000_0000_0000,
        }
    }
}

impl DecoderAlgorithm for LdpcMinSumBasic {
    open spec fn id_spec(&self) -> Seq<char> {
        "ldpc"@
    }

    open spec fn profile_spec(&self) -> Seq<char> {
        "ldpc-minsum-basic"@
    }

    open spec fn output_spec(&self, input: Seq<u8>) -> Seq<u8> {
        flip_every(input, 7, 2)
    }

    open spec fn evidence_spec(&self, profile_id: Seq<char>) -> Seq<u8> {
        soft_evidence_json(
            "ldpc"@,
            profile_id,
            "0.9375"@,
            "0.0625"@,
            seq!["iterations=4"@, "decoder=minsum_stub"@],
        )
    }

    /// 0.0625
    open spec fn residual_bits_spec(&self) -> u64 {
        0x3FB0_0000_0000_0000
    }

    /// 0.9375
    open spec fn quality_bits_spec(&self) -> u64 {
        0x3FEE_0000_0000_0000
    }

    fn algorithm_id(&self) -> (r: &'static str) {
        "ldpc"
    }

    fn supports(&self, profile_id: &str) -> (r: bool) {
        str_eq(profile_id, "ldpc-minsum-basic")
    }

    fn decode(&self, job: &JobSpec, input: &[u8]) -> (r: DecodeResult) {
        let notes: Vec<&str> = vec!["iterations=4", "decoder=minsum_stub"];
        let evidence = make_soft_evidence_bytes(
            "ldpc",
            job.algorithm_profile.as_str(),
            "0.9375",
            "0.0625",
            &notes,
        );
        assert(notes@.map_values(|n: &str| n@) =~= seq!["iterations=4"@, "decoder=minsum_stub"@]);
        DecodeResult {
            algorithm_id: self.algorithm_id(),
            profile_id: job.algorithm_profile.clone(),
            output_bytes: flip_bytes(input, 7, 2),
            evidence_bytes: evidence,
            residual_score_bits: 0x3FB0_0000_0000_0000,
            quality_score_bits: 0x3FEE_0000_0000_0000,
        }
    }
}

impl DecoderAlgorithm for TurboBasic {
    open spec fn id_spec(&self) -> Seq<char> {
        "turbo"@
    }

    open spec fn profile_spec(&self) -> Seq<char> {
        "turbo-basic"@
    }

    open spec fn output_spec(&self, input: Seq<u8>) -> Seq<u8> {
        flip_every(input, 3, 4)
    }

    open spec fn evidence_spec(&self, profile_id: Seq<char>) -> Seq<u8> {
        soft_evidence_json(
            "turbo"@,
            profile_id,
            "0.92"@,
            "0.08"@,
            seq!["iterations=6"@, "decoder=turbo_stub"@],
        )
    }

    /// 0.08
    open spec fn residual_bits_spec(&self) -> u64 {
        0x3FB4_7AE1_47AE_147B
    }

    /// 0.92
    open spec fn quality_bits_spec(&self) -> u64 {
        0x3FED_70A3_D70A_3D71
    }

    fn algorithm_id(&self) -> (r: &'static str) {
        "turbo"
    }

    fn supports(&self, profile_id: &str) -> (r: bool) {
        str_eq(profile_id, "turbo-basic")
    }

    fn decode(&self, job: &JobSpec, input: &[u8]) -> (r: DecodeResult) {
        let notes: Vec<&str> = vec!["iterations=6", "decoder=turbo_stub"];
        let evidence = make_soft_evidence_bytes(
            "turbo",
            job.algorithm_profile.as_str(),
            "0.92",
            "0.08",
            &notes,
        );
        assert(notes@.map_values(|n: &str| n@) =~= seq!["iterations=6"@, "decoder=turbo_stub"@]);
        DecodeResult {
            algorithm_id: self.algorithm_id(),
            profile_id: job.algorithm_profile.clone(),
            output_bytes: flip_bytes(input, 3, 4),
            evidence_bytes: evidence,
            residual_score_bits: 0x3FB4_7AE1_47AE_147B,
            quality_score_bits: 0x3FED_70A3_D70A_3D71,
        }
    }
}

/// One of the built-in decoders.
pub enum DecoderKind {
    Viterbi(ViterbiBasicBsc),
    Ldpc(LdpcMinSumBasic),
    Turbo(TurboBasic),
}

impl DecoderAlgorithm for DecoderKind {
    open spec fn id_spec(&self) -> Seq<char> {
        match self {
            DecoderKind::Viterbi(d) => d.id_spec(),
            DecoderKind::Ldpc(d) => d.id_spec(),
            DecoderKind::Turbo(d) => d.id_spec(),
        }
    }

    open spec fn profile_spec(&self) -> Seq<char> {
        match self {
            DecoderKind::Viterbi(d) => d.profile_spec(),
            DecoderKind::Ldpc(d) => d.profile_spec(),
            DecoderKind::Turbo(d) => d.profile_spec(),
        }
    }

    open spec fn output_spec(&self, input: Seq<u8>) -> Seq<u8> {
        match self {
            DecoderKind::Viterbi(d) => d.output_spec(input),
            DecoderKind::Ldpc(d) => d.output_spec(input),
            DecoderKind::Turbo(d) => d.output_spec(input),
        }
    }

    open spec fn evidence_spec(&self, profile_id: Seq<char>) -> Seq<u8> {
        match self {
            DecoderKind::Viterbi(d) => d.evidence_spec(profile_id),
            DecoderKind::Ldpc(d) => d.evidence_spec(profile_id),
            DecoderKind::Turbo(d) => d.evidence_spec(profile_id),
        }
    }

    open spec fn residual_bits_spec(&self) -> u64 {
        match self {
            DecoderKind::Viterbi(d) => d.residual_bits_spec(),
            DecoderKind::Ldpc(d) => d.residual_bits_spec(),
            DecoderKind::Turbo(d) => d.residual_bits_spec(),
        }
    }

    open spec fn quality_bits_spec(&self) -> u64 {
        match self {
            DecoderKind::Viterbi(d) => d.quality_bits_spec(),
            DecoderKind::Ldpc(d) => d.quality_bits_spec(),
            DecoderKind::Turbo(d) => d.quality_bits_spec(),
        }
    }

    fn algorithm_id(&self) -> (r: &'static str) {
        match self {
            DecoderKind::Viterbi(d) => d.algorithm_id(),
            DecoderKind::Ldpc(d) => d.algorithm_id(),
            DecoderKind::Turbo(d) => d.algorithm_id(),
        }
    }

    fn supports(&self, profile_id: &str) -> (r: bool) {
        match self {
            DecoderKind::Viterbi(d) => d.supports(profile_id),
            DecoderKind::Ldpc(d) => d.supports(profile_id),
            DecoderKind::Turbo(d) => d.supports(profile_id),
        }
    }

    fn decode(&self, job: &JobSpec, input: &[u8]) -> (r: DecodeResult) {
        match self {
            DecoderKind::Viterbi(d) => d.decode(job, input),
            DecoderKind::Ldpc(d) => d.decode(job, input),
            DecoderKind::Turbo(d) => d.decode(job, input),
        }
    }
}

/// The index of the first decoder in `ds` that supports `profile`.
pub open spec fn first_supporting(ds: Seq<DecoderKind>, profile: Seq<char>) -> Option<int>
    decreases ds.len(),
{
    if ds.len() == 0 {
        None
    } else if ds[0].profile_spec() == profile {
        Some(0)
    } else {
        match first_supporting(ds.drop_first(), profile) {
            Some(i) => Some(i + 1),
            None => None,
        }
    }
}

/// The first supporting index is in range, supports the profile, and no
/// earlier decoder does; there is none exactly when no decoder supports it.
pub proof fn lemma_first_supporting(ds: Seq<DecoderKind>, profile: Seq<char>)
    ensures
        first_supporting(ds, profile) matches Some(i) ==> 0 <= i < ds.len() && ds[i].profile_spec() == profile
            && forall|j: int| 0 <= j < i ==> #[trigger] ds[j].profile_spec() != profile,
        first_supporting(ds, profile) is None <==> forall|j: int|
            0 <= j < ds.len() ==> #[trigger] ds[j].profile_spec() != profile,
    decreases ds.len(),
{
    if ds.len() > 0 {
        lemma_first_supporting(ds.drop_first(), profile);
        if ds[0].profile_spec() != profile {
            assert forall|j: int| 0 < j < ds.len() implies #[trigger] ds[j].profile_spec() == ds.drop_first()[j - 1].profile_spec() by {}
        }
    }
}

/// The built-in decoders, in dispatch order.
pub open spec fn default_decoders() -> Seq<DecoderKind> {
    seq![
        DecoderKind::Viterbi(ViterbiBasicBsc),
        DecoderKind::Ldpc(LdpcMinSumBasic),
        DecoderKind::Turbo(TurboBasic),
    ]
}

/// The decoders a worker can run, tried in order.
pub struct AlgorithmRegistry {
    algorithms: Vec<DecoderKind>,
}

impl AlgorithmRegistry {
    /// The registry's decoders, in dispatch order.
    pub closed spec fn decoders(&self) -> Seq<DecoderKind> {
        self.algorithms@
    }

    /// Whether some decoder of the registry supports `profile`.
    pub open spec fn supports_spec(&self, profile: Seq<char>) -> bool {
        first_supporting(self.decoders(), profile) is Some
    }

    /// How `decode` answers a job with profile `profile` on `input`.
    #[verifier::opaque]
    pub open spec fn decode_spec(&self, job: JobSpec, input: Seq<u8>, r: Result<DecodeResult, AlgorithmError>) -> bool {
        match first_supporting(self.decoders(), job.algorithm_profile@) {
            Some(i) => {
                let d = self.decoders()[i];
                &&& r matches Ok(res)
                &&& res.algorithm_id@ == d.id_spec()
                &&& res.profile_id@ == job.algorithm_profile@
                &&& res.output_bytes@ == d.output_spec(input)
                &&& res.evidence_bytes@ == d.evidence_spec(job.algorithm_profile@)
                &&& res.residual_score_bits == d.residual_bits_spec()
                &&& res.quality_score_bits == d.quality_bits_spec()
            },
            None => r matches Err(AlgorithmError::UnsupportedProfile(p)) && p@ == job.algorithm_profile@,
        }
    }

    /// The Viterbi, LDPC and turbo decoders.
    pub fn with_defaults() -> (r: Self)
        ensures
            r.decoders() == default_decoders(),
    {
        let r = AlgorithmRegistry {
            algorithms: vec![
                DecoderKind::Viterbi(ViterbiBasicBsc),
                DecoderKind::Ldpc(LdpcMinSumBasic),
                DecoderKind::Turbo(TurboBasic),
            ],
        };
        assert(r.algorithms@ =~= default_decoders());
        r
    }

    /// Decodes `input` with the first decoder that supports the job's
    /// profile.
    pub fn decode(&self, job: &JobSpec, input: &[u8]) -> (r: Result<DecodeResult, AlgorithmError>)
        ensures
            self.decode_spec(*job, input@, r),
            r is Ok <==> self.supports_spec(job.algorithm_profile@),
    {
        let profile = job.algorithm_profile.as_str();
        let mut k: usize = 0;
        while k < self.algorithms.len()
            invariant
                k <= self.algorithms@.len(),
                profile@ == job.algorithm_profile@,
                forall|j: int| 0 <= j < k ==> #[trigger] self.algorithms@[j].profile_spec() != profile@,
            decreases self.algorithms@.len() - k,
        {
            if self.algorithms[k].supports(profile) {
                let res = self.algorithms[k].decode(job, input);
                proof {
                    reveal(AlgorithmRegistry::decode_spec);
                    lemma_first_supporting(self.algorithms@, profile@);
                    let f = first_supporting(self.algorithms@, profile@);
                    assert(f is Some);
                    let i = f->0;
                    if i < k {
                        assert(self.algorithms@[i].profile_spec() != profile@);
                    } else if i > k {
                        assert(self.algorithms@[k as int].profile_spec() != profile@);
                    }
                }
                return Ok(res);
            }
            k = k + 1;
        }
        proof {
            reveal(AlgorithmRegistry::decode_spec);
            lemma_first_supporting(self.algorithms@, profile@);
        }
        Err(AlgorithmError::UnsupportedProfile(job.algorithm_profile.clone()))
    }

    /// Whether some decoder supports `profile`.
    pub fn supports_profile(&self, profile: &str) -> (r: bool)
        ensures
            r == self.supports_spec(profile@),
    {
        proof {
            lemma_first_supporting(self.algorithms@, profile@);
        }
        let mut k: usize = 0;
        while k < self.algorithms.len()
            invariant
                k <= self.algorithms@.len(),
                forall|j: int| 0 <= j < k ==> #[trigger] self.algorithms@[j].profile_spec() != profile@,
            decreases self.algorithms@.len() - k,
        {
            if self.algorithms[k].supports(profile) {
                proof {
                    lemma_first_supporting(self.algorithms@, profile@);
                    assert(self.algorithms@[k as int].profile_spec() == profile@);
                }
                return true;
            }
            k = k + 1;
        }
        false
    }
}

/// The Viterbi decoder's output has the input's length; its byte `i` is the
/// input byte with bit 0 flipped exactly when `i` is a multiple of 5, and
/// the input byte itself otherwise.
pub proof fn law_viterbi_flips_every_fifth_byte(input: Seq<u8>)
    ensures
        ViterbiBasicBsc.output_spec(input).len() == input.len(),
        forall|i: int|
            0 <= i < input.len() && i % 5 == 0 ==> #[trigger] ViterbiBasicBsc.output_spec(input)[i] == input[i] ^ 1u8,
        forall|i: int|
            0 <= i < input.len() && i % 5 != 0 ==> #[trigger] ViterbiBasicBsc.output_spec(input)[i] == input[i],
{
}

/// The LDPC decoder's output has the input's length; its byte `i` is the
/// input byte xor 2 exactly when `i` is a multiple of 7, and the input byte
/// itself otherwise.
pub proof fn law_ldpc_flips_every_seventh_byte(input: Seq<u8>)
    ensures
        LdpcMinSumBasic.output_spec(input).len() == input.len(),
        forall|i: int|
            0 <= i < input.len() && i % 7 == 0 ==> #[trigger] LdpcMinSumBasic.output_spec(input)[i] == input[i] ^ 2u8,
        forall|i: int|
            0 <= i < input.len() && i % 7 != 0 ==> #[trigger] LdpcMinSumBasic.output_spec(input)[i] == input[i],
{
}

/// The turbo decoder's output has the input's length; its byte `i` is the
/// input byte xor 4 exactly when `i` is a multiple of 3, and the input byte
/// itself otherwise.
pub proof fn law_turbo_flips_every_third_byte(input: Seq<u8>)
    ensures
        TurboBasic.output_spec(input).len() == input.len(),
        forall|i: int|
            0 <= i < input.len() && i % 3 == 0 ==> #[trigger] TurboBasic.output_spec(input)[i] == input[i] ^ 4u8,
        forall|i: int|
            0 <= i < input.len() && i % 3 != 0 ==> #[trigger] TurboBasic.output_spec(input)[i] == input[i],
{
}

/// Decoding twice gives the input back: each decoder flips a fixed mask at
/// fixed positions.
pub proof fn law_decoding_twice_restores_input(input: Seq<u8>)
    ensures
        ViterbiBasicBsc.output_spec(ViterbiBasicBsc.output_spec(input)) == input,
        LdpcMinSumBasic.output_spec(LdpcMinSumBasic.output_spec(input)) == input,
        TurboBasic.output_spec(TurboBasic.output_spec(input)) == input,
{
    assert forall|b: u8, m: u8| #[trigger] ((b ^ m) ^ m) == b by {
        assert((b ^ m) ^ m == b) by (bit_vector);
    }
    assert(ViterbiBasicBsc.output_spec(ViterbiBasicBsc.output_spec(input)) =~= input);
    assert(LdpcMinSumBasic.output_spec(LdpcMinSumBasic.output_spec(input)) =~= input);
    assert(TurboBasic.output_spec(TurboBasic.output_spec(input)) =~= input);
}

/// The built-in registry sends a job to the decoder of its profile:
/// `viterbi-basic-bsc` to the Viterbi decoder, `ldpc-minsum-basic` to the
/// LDPC decoder, `turbo-basic` to the turbo decoder, and nothing else to
/// any decoder.
pub proof fn law_default_dispatch_by_profile(profile: Seq<char>)
    ensures
        profile == "viterbi-basic-bsc"@ ==> first_supporting(default_decoders(), profile) == Some(0int),
        profile == "ldpc-minsum-basic"@ ==> first_supporting(default_decoders(), profile) == Some(1int),
        profile == "turbo-basic"@ ==> first_supporting(default_decoders(), profile) == Some(2int),
        first_supporting(default_decoders(), profile) is None <==> (profile != "viterbi-basic-bsc"@ && profile
            != "ldpc-minsum-basic"@ && profile != "turbo-basic"@),
{
    reveal_strlit("viterbi-basic-bsc");
    reveal_strlit("ldpc-minsum-basic");
    reveal_strlit("turbo-basic");
    reveal_with_fuel(first_supporting, 4);
    let ds = default_decoders();
    assert(ds.drop_first() =~= seq![DecoderKind::Ldpc(LdpcMinSumBasic), DecoderKind::Turbo(TurboBasic)]);
    assert(ds.drop_first().drop_first() =~= seq![DecoderKind::Turbo(TurboBasic)]);
    assert(ds.drop_first().drop_first().drop_first() =~= Seq::<DecoderKind>::empty());
    assert("viterbi-basic-bsc"@[0] != "ldpc-minsum-basic"@[0]);
    assert("viterbi-basic-bsc"@[0] != "turbo-basic"@[0]);
    assert("ldpc-minsum-basic"@[0] != "turbo-basic"@[0]);
}

} // verus!
