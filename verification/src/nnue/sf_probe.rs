//! Inspection of Stockfish network files: the header, the compressed parameter
//! blocks and the layer stacks are walked byte by byte, and the result tells
//! how much of the file the expected layout accounts for.

use vstd::prelude::*;
use vstd::string::StringExecFns;

verus! {

/// The tag in front of every LEB128-compressed block: `COMPRESSED_LEB128`.
pub const SF_LEB128_MAGIC: [u8; 17] = [67, 79, 77, 80, 82, 69, 83, 83, 69, 68, 95, 76, 69, 66, 49, 50, 56];

/// Raw threat weights: 59,808 features times 1024 bytes.
pub const THREAT_WEIGHTS_BYTES: usize = 61243392;
/// Raw pawn pair weights: 4,560 features times 1024 bytes.
pub const PAWN_PAIR_WEIGHTS_BYTES: usize = 4669440;
/// The first layer of a stack: 32 four-byte biases and 32 x 1024 byte weights.
pub const FC0_BYTES: usize = 32896;
/// The second layer of a stack: 32 four-byte biases and 32 x 64 byte weights.
pub const FC1_BYTES: usize = 2176;
/// The output layer of a stack: one four-byte bias and 128 byte weights.
pub const FC2_BYTES: usize = 132;

/// The text of a byte string read as UTF-8, each invalid sequence replaced by
/// U+FFFD, as `String::from_utf8_lossy` gives it.
pub uninterp spec fn utf8_lossy(bytes: Seq<u8>) -> Seq<char>;

/// `String::from_utf8_lossy` of std, made into an owned string. Its documentation
/// leaves valid UTF-8 unchanged, so ASCII bytes come back as the same
/// characters; how other byte strings decode is named, not spelled out.
#[verifier::external_body]
fn lossy_text(bytes: &[u8]) -> (s: String)
    ensures
        s@ == utf8_lossy(bytes@),
        (forall|i: int| 0 <= i < bytes@.len() ==> #[trigger] bytes@[i] < 128) ==> s@ == bytes@.map_values(|b: u8| b as char),
{
    String::from_utf8_lossy(bytes).to_string()
}

/// The little-endian 32-bit word at a byte offset.
pub open spec fn le_u32(d: Seq<u8>, o: int) -> u32 {
    (d[o] as int + d[o + 1] as int * 0x100 + d[o + 2] as int * 0x10000 + d[o + 3] as int * 0x1000000) as u32
}

/// One step of a LEB128 decoding: the low seven bits of a byte land at the
/// shift, taken modulo the word size.
pub open spec fn leb_step(acc: u32, b: u8, shift: nat) -> u32 {
    acc | (((b & 0x7f) as u32) << ((shift % 32) as u32))
}

/// A signed LEB128 number starting at `curr` and ending before `end`, with the
/// bits gathered so far: its value and the offset behind it, or nothing when
/// the bytes run out before a byte without the continuation bit.
pub open spec fn leb_decode(d: Seq<u8>, curr: int, end: int, acc: u32, shift: nat) -> Option<(i32, int)>
    decreases end - curr,
{
    if curr >= end || curr < 0 {
        None
    } else {
        let b = d[curr];
        let acc2 = leb_step(acc, b, shift);
        let shift2 = shift + 7;
        if b & 0x80 == 0 {
            let v: i32 = if shift2 < 32 && (b & 0x40) != 0 {
                (acc2 | (!0u32 << (shift2 as u32))) as i32
            } else {
                acc2 as i32
            };
            Some((v, curr + 1))
        } else {
            leb_decode(d, curr + 1, end, acc2, shift2)
        }
    }
}

/// Up to `n` numbers decoded one after the other from `curr`, stopping early at
/// `end`, each cut to 16 bits; nothing if one of them is cut short.
pub open spec fn leb_samples(d: Seq<u8>, curr: int, end: int, n: nat) -> Option<Seq<i16>>
    decreases n,
{
    if n == 0 || curr >= end {
        Some(Seq::empty())
    } else {
        match leb_decode(d, curr, end, 0, 0) {
            None => None,
            Some((v, next)) => match leb_samples(d, next, end, (n - 1) as nat) {
                None => None,
                Some(rest) => Some(seq![v as i16] + rest),
            },
        }
    }
}

/// A compressed block at offset `o`: the tag, a 32-bit payload length and the
/// payload, which must lie inside the data. Gives the offset behind the block
/// and the first numbers of the payload when samples are asked for.
pub open spec fn leb_block(d: Seq<u8>, o: int, expected: nat, samples: nat) -> Option<(int, Seq<i16>)> {
    if o + 17 > d.len() || d.subrange(o, o + 17) != SF_LEB128_MAGIC@ || o + 21 > d.len() {
        None
    } else {
        let end = o + 21 + le_u32(d, o + 17);
        if end > d.len() {
            None
        } else if samples > 0 {
            let n: nat = if samples <= expected { samples } else { expected };
            match leb_samples(d, o + 21, end, n) {
                None => None,
                Some(s) => Some((end, s)),
            }
        } else {
            Some((end, Seq::empty()))
        }
    }
}

/// The layer stacks from stack `k` on, starting at offset `o`: each opens with
/// the network hash and holds three layers of fixed size. Gives the offset
/// behind the last stack.
pub open spec fn stacks_end(d: Seq<u8>, o: int, k: int, hash: u32) -> Option<int>
    decreases 8 - k,
{
    if k >= 8 {
        Some(o)
    } else if o + 4 > d.len() || le_u32(d, o) != hash {
        None
    } else {
        let o1 = o + 4 + FC0_BYTES;
        let o2 = o1 + FC1_BYTES;
        let o3 = o2 + FC2_BYTES;
        if o1 > d.len() || o2 > d.len() || o3 > d.len() {
            None
        } else {
            stacks_end(d, o3, k + 1, hash)
        }
    }
}

/// What a probe finds in a file, with the text and the sample biases as sequences.
pub struct ProbeView {
    pub file_size: usize,
    pub version: u32,
    pub architecture_hash: u32,
    pub description: Seq<char>,
    pub feature_transformer_hash: u32,
    pub ft_biases_count: usize,
    pub ft_sample_biases: Seq<i16>,
    pub threat_weights_bytes: usize,
    pub threat_psqt_count: usize,
    pub pawn_pair_weights_bytes: usize,
    pub pawn_pair_psqt_count: usize,
    pub half_ka_weights_count: usize,
    pub half_ka_psqt_count: usize,
    pub network_architecture_hash: u32,
    pub layer_stacks_count: usize,
    pub fc0_dim: (usize, usize),
    pub fc1_dim: (usize, usize),
    pub fc2_dim: (usize, usize),
    pub bytes_consumed: usize,
    pub is_valid: bool,
}

/// The probe of a file's bytes: the header (version, architecture hash and a
/// described text, then the feature transformer hash), the feature transformer
/// biases, the threat weights and their PSQT, the pawn pair weights and their
/// PSQT, the HalfKAv2 weights and PSQT, and eight layer stacks. Nothing when a
/// part runs past the end of the data, a block tag is wrong, a compressed
/// number is cut short or a stack hash differs from the network hash.
pub open spec fn probe_spec(d: Seq<u8>) -> Option<ProbeView> {
    let len = d.len() as int;
    if len < 12 {
        None
    } else {
        let desc_len = le_u32(d, 8) as int;
        let o1 = 12 + desc_len;
        if o1 > len || o1 + 4 > len {
            None
        } else {
            let arch = le_u32(d, 4);
            let fth = le_u32(d, o1);
            let net = arch ^ fth;
            match leb_block(d, o1 + 4, 1024, 8) {
                None => None,
                Some((o2, samples)) => if o2 + THREAT_WEIGHTS_BYTES > len {
                    None
                } else {
                    match leb_block(d, o2 + THREAT_WEIGHTS_BYTES, 478464, 0) {
                        None => None,
                        Some((o3, _)) => if o3 + PAWN_PAIR_WEIGHTS_BYTES > len {
                            None
                        } else {
                            match leb_block(d, o3 + PAWN_PAIR_WEIGHTS_BYTES, 36480, 0) {
                                None => None,
                                Some((o4, _)) => match leb_block(d, o4, 23068672, 0) {
                                    None => None,
                                    Some((o5, _)) => match leb_block(d, o5, 180224, 0) {
                                        None => None,
                                        Some((o6, _)) => match stacks_end(d, o6, 0, net) {
                                            None => None,
                                            Some(o7) => Some(ProbeView {
                                                file_size: len as usize,
                                                version: le_u32(d, 0),
                                                architecture_hash: arch,
                                                description: utf8_lossy(d.subrange(12, o1)),
                                                feature_transformer_hash: fth,
                                                ft_biases_count: 1024,
                                                ft_sample_biases: samples,
                                                threat_weights_bytes: THREAT_WEIGHTS_BYTES,
                                                threat_psqt_count: 478464,
                                                pawn_pair_weights_bytes: PAWN_PAIR_WEIGHTS_BYTES,
                                                pawn_pair_psqt_count: 36480,
                                                half_ka_weights_count: 23068672,
                                                half_ka_psqt_count: 180224,
                                                network_architecture_hash: net,
                                                layer_stacks_count: 8,
                                                fc0_dim: (1024, 32),
                                                fc1_dim: (64, 32),
                                                fc2_dim: (128, 1),
                                                bytes_consumed: o7 as usize,
                                                is_valid: o7 == len,
                                            }),
                                        },
                                    },
                                },
                            }
                        },
                    }
                },
            }
        }
    }
}

proof fn lemma_stacks_within(d: Seq<u8>, o: int, k: int, hash: u32)
    requires
        0 <= o <= d.len(),
    ensures
        stacks_end(d, o, k, hash) matches Some(e) ==> o <= e <= d.len(),
    decreases 8 - k,
{
    if k < 8 && o + 4 <= d.len() && le_u32(d, o) == hash {
        let o3 = o + 4 + FC0_BYTES + FC1_BYTES + FC2_BYTES;
        if o3 <= d.len() {
            lemma_stacks_within(d, o3, k + 1, hash);
        }
    }
}

proof fn lemma_samples_len(d: Seq<u8>, curr: int, end: int, n: nat)
    ensures
        leb_samples(d, curr, end, n) matches Some(s) ==> s.len() <= n,
    decreases n,
{
    if n > 0 && curr < end {
        match leb_decode(d, curr, end, 0, 0) {
            None => {},
            Some((v, next)) => lemma_samples_len(d, next, end, (n - 1) as nat),
        }
    }
}

/// What every successful probe reports: the file's size and first word, the
/// network hash as the two header hashes combined, at most eight sample biases,
/// the fixed layout sizes, a consumed length within the file, and validity
/// exactly when the layout accounts for the whole file.
pub proof fn lemma_probe_report(d: Seq<u8>)
    requires
        probe_spec(d) is Some,
        d.len() <= usize::MAX,
    ensures
        ({
            let v = probe_spec(d).unwrap();
            &&& v.file_size == d.len()
            &&& v.version == le_u32(d, 0)
            &&& v.architecture_hash == le_u32(d, 4)
            &&& v.network_architecture_hash == v.architecture_hash ^ v.feature_transformer_hash
            &&& v.ft_biases_count == 1024
            &&& v.ft_sample_biases.len() <= 8
            &&& v.threat_weights_bytes == THREAT_WEIGHTS_BYTES
            &&& v.threat_psqt_count == 478464
            &&& v.pawn_pair_weights_bytes == PAWN_PAIR_WEIGHTS_BYTES
            &&& v.pawn_pair_psqt_count == 36480
            &&& v.half_ka_weights_count == 23068672
            &&& v.half_ka_psqt_count == 180224
            &&& v.layer_stacks_count == 8
            &&& v.fc0_dim == (1024usize, 32usize)
            &&& v.fc1_dim == (64usize, 32usize)
            &&& v.fc2_dim == (128usize, 1usize)
            &&& v.bytes_consumed <= v.file_size
            &&& v.is_valid == (v.bytes_consumed == v.file_size)
        }),
{
    let len = d.len() as int;
    let desc_len = le_u32(d, 8) as int;
    let o1 = 12 + desc_len;
    let arch = le_u32(d, 4);
    let fth = le_u32(d, o1);
    let net = arch ^ fth;
    let (o2, samples) = leb_block(d, o1 + 4, 1024, 8).unwrap();
    lemma_samples_len(d, o1 + 4 + 21, o2, 8);
    let (o3, _) = leb_block(d, o2 + THREAT_WEIGHTS_BYTES, 478464, 0).unwrap();
    let (o4, _) = leb_block(d, o3 + PAWN_PAIR_WEIGHTS_BYTES, 36480, 0).unwrap();
    let (o5, _) = leb_block(d, o4, 23068672, 0).unwrap();
    let (o6, _) = leb_block(d, o5, 180224, 0).unwrap();
    assert(0 <= o6 <= len);
    lemma_stacks_within(d, o6, 0, net);
    let o7 = stacks_end(d, o6, 0, net).unwrap();
    assert(o7 <= len);
    let v = probe_spec(d).unwrap();
    assert(v.ft_sample_biases == samples);
    assert(v.bytes_consumed == o7);
}

/// What the probe of a Stockfish network file found.
#[derive(Debug)]
pub struct SFNNUEInfo {
    pub file_size: usize,
    pub version: u32,
    pub architecture_hash: u32,
    pub description: String,
    pub feature_transformer_hash: u32,
    pub ft_biases_count: usize,
    pub ft_sample_biases: Vec<i16>,
    pub threat_weights_bytes: usize,
    pub threat_psqt_count: usize,
    pub pawn_pair_weights_bytes: usize,
    pub pawn_pair_psqt_count: usize,
    pub half_ka_weights_count: usize,
    pub half_ka_psqt_count: usize,
    pub network_architecture_hash: u32,
    pub layer_stacks_count: usize,
    pub fc0_dim: (usize, usize),
    pub fc1_dim: (usize, usize),
    pub fc2_dim: (usize, usize),
    pub bytes_consumed: usize,
    pub is_valid: bool,
}

impl View for SFNNUEInfo {
    type V = ProbeView;

    open spec fn view(&self) -> ProbeView {
        ProbeView {
            file_size: self.file_size,
            version: self.version,
            architecture_hash: self.architecture_hash,
            description: self.description@,
            feature_transformer_hash: self.feature_transformer_hash,
            ft_biases_count: self.ft_biases_count,
            ft_sample_biases: self.ft_sample_biases@,
            threat_weights_bytes: self.threat_weights_bytes,
            threat_psqt_count: self.threat_psqt_count,
            pawn_pair_weights_bytes: self.pawn_pair_weights_bytes,
            pawn_pair_psqt_count: self.pawn_pair_psqt_count,
            half_ka_weights_count: self.half_ka_weights_count,
            half_ka_psqt_count: self.half_ka_psqt_count,
            network_architecture_hash: self.network_architecture_hash,
            layer_stacks_count: self.layer_stacks_count,
            fc0_dim: self.fc0_dim,
            fc1_dim: self.fc1_dim,
            fc2_dim: self.fc2_dim,
            bytes_consumed: self.bytes_consumed,
            is_valid: self.is_valid,
        }
    }
}

impl Clone for SFNNUEInfo {
    fn clone(&self) -> (c: Self)
        ensures
            c@ == self@,
    {
        let biases = self.ft_sample_biases.clone();
        assert(biases@ =~= self.ft_sample_biases@);
        SFNNUEInfo {
            file_size: self.file_size,
            version: self.version,
            architecture_hash: self.architecture_hash,
            description: self.description.clone(),
            feature_transformer_hash: self.feature_transformer_hash,
            ft_biases_count: self.ft_biases_count,
            ft_sample_biases: biases,
            threat_weights_bytes: self.threat_weights_bytes,
            threat_psqt_count: self.threat_psqt_count,
            pawn_pair_weights_bytes: self.pawn_pair_weights_bytes,
            pawn_pair_psqt_count: self.pawn_pair_psqt_count,
            half_ka_weights_count: self.half_ka_weights_count,
            half_ka_psqt_count: self.half_ka_psqt_count,
            network_architecture_hash: self.network_architecture_hash,
            layer_stacks_count: self.layer_stacks_count,
            fc0_dim: self.fc0_dim,
            fc1_dim: self.fc1_dim,
            fc2_dim: self.fc2_dim,
            bytes_consumed: self.bytes_consumed,
            is_valid: self.is_valid,
        }
    }
}

/// Walks the layout of Stockfish network files.
pub struct SFNNUEProbe;

impl SFNNUEProbe {
    /// Inspects the bytes of a Stockfish network file. Fails exactly when the
    /// probe finds nothing; otherwise the report is the probe's, and the file
    /// is valid when the layout accounts for every byte.
    pub fn probe_slice(data: &[u8]) -> (r: Result<SFNNUEInfo, String>)
        ensures
            r is Err <==> probe_spec(data@) is None,
            r matches Ok(info) ==> probe_spec(data@) == Some(info@),
            r matches Ok(info) ==> {
                &&& info.file_size == data@.len()
                &&& info.network_architecture_hash == info.architecture_hash ^ info.feature_transformer_hash
                &&& info.ft_sample_biases@.len() <= 8
                &&& info.layer_stacks_count == 8
                &&& info.bytes_consumed <= info.file_size
                &&& info.is_valid == (info.bytes_consumed == info.file_size)
            },
    {
        proof {
            if probe_spec(data@) is Some {
                assert(data@.len() == data.len());
                lemma_probe_report(data@);
            }
        }
        let ghost d = data@;
        let file_size = data.len();
        if file_size < 12 {
            return Err(String::from_str("File too short"));
        }
        let mut offset: usize = 0;
        let version = Self::read_u32(data, &mut offset)?;
        let architecture_hash = Self::read_u32(data, &mut offset)?;
        let desc_len_word = Self::read_u32(data, &mut offset)?;
        let desc_len = desc_len_word as usize;
        if desc_len > file_size - offset {
            return Err(String::from_str("Description length exceeds file boundaries"));
        }
        let mut desc_bytes: Vec<u8> = Vec::new();
        let mut k: usize = 0;
        while k < desc_len
            invariant
                offset == 12,
                offset + desc_len <= file_size,
                file_size == data@.len(),
                k <= desc_len,
                desc_bytes@ == data@.subrange(12, 12 + k as int),
            decreases desc_len - k,
        {
            desc_bytes.push(data[offset + k]);
            k = k + 1;
            assert(desc_bytes@ =~= data@.subrange(12, 12 + k as int));
        }
        let description = lossy_text(desc_bytes.as_slice());
        offset = offset + desc_len;
        let feature_transformer_hash = Self::read_u32(data, &mut offset)?;
        let expected_net_arch_hash = architecture_hash ^ feature_transformer_hash;

        let (ft_biases_count, sample_biases) = Self::read_leb128_block(data, &mut offset, 1024, 8)?;

        let threat_weights_bytes = THREAT_WEIGHTS_BYTES;
        if threat_weights_bytes > file_size - offset {
            return Err(String::from_str("Threat weights exceed file boundaries"));
        }
        offset = offset + threat_weights_bytes;
        let (threat_psqt_count, _) = Self::read_leb128_block(data, &mut offset, 478464, 0)?;

        let pawn_pair_weights_bytes = PAWN_PAIR_WEIGHTS_BYTES;
        if pawn_pair_weights_bytes > file_size - offset {
            return Err(String::from_str("Pawn pair weights exceed file boundaries"));
        }
        offset = offset + pawn_pair_weights_bytes;
        let (pawn_pair_psqt_count, _) = Self::read_leb128_block(data, &mut offset, 36480, 0)?;
        let (half_ka_weights_count, _) = Self::read_leb128_block(data, &mut offset, 23068672, 0)?;
        let (half_ka_psqt_count, _) = Self::read_leb128_block(data, &mut offset, 180224, 0)?;

        let layer_stacks_count: usize = 8;
        let ghost stacks_start = offset as int;
        let mut stack_idx: usize = 0;
        #[verifier::loop_isolation(false)]
        while stack_idx < layer_stacks_count
            invariant
                layer_stacks_count == 8,
                stack_idx <= 8,
                offset <= file_size,
                file_size == data@.len(),
                d == data@,
                stacks_end(d, stacks_start, 0, expected_net_arch_hash)
                    == stacks_end(d, offset as int, stack_idx as int, expected_net_arch_hash),
            decreases 8 - stack_idx,
        {
            let stack_hash = Self::read_u32(data, &mut offset)?;
            if stack_hash != expected_net_arch_hash {
                return Err(String::from_str("Layer stack hash mismatch"));
            }
            if FC0_BYTES > file_size - offset {
                return Err(String::from_str("Stack fc_0 exceeds file size"));
            }
            offset = offset + FC0_BYTES;
            if FC1_BYTES > file_size - offset {
                return Err(String::from_str("Stack fc_1 exceeds file size"));
            }
            offset = offset + FC1_BYTES;
            if FC2_BYTES > file_size - offset {
                return Err(String::from_str("Stack fc_2 exceeds file size"));
            }
            offset = offset + FC2_BYTES;
            stack_idx = stack_idx + 1;
        }
        let is_valid = offset == file_size;
        let info = SFNNUEInfo {
            file_size,
            version,
            architecture_hash,
            description,
            feature_transformer_hash,
            ft_biases_count,
            ft_sample_biases: sample_biases,
            threat_weights_bytes,
            threat_psqt_count,
            pawn_pair_weights_bytes,
            pawn_pair_psqt_count,
            half_ka_weights_count,
            half_ka_psqt_count,
            network_architecture_hash: expected_net_arch_hash,
            layer_stacks_count,
            fc0_dim: (1024, 32),
            fc1_dim: (64, 32),
            fc2_dim: (128, 1),
            bytes_consumed: offset,
            is_valid,
        };
        Ok(info)
    }

    /// The little-endian word at the offset, which moves past it; an error when
    /// fewer than four bytes are left.
    fn read_u32(data: &[u8], offset: &mut usize) -> (r: Result<u32, String>)
        requires
            *old(offset) <= data@.len(),
        ensures
            r is Ok <==> *old(offset) + 4 <= data@.len(),
            r matches Ok(v) ==> v == le_u32(data@, *old(offset) as int) && *final(offset) == *old(offset) + 4,
            r is Err ==> *final(offset) == *old(offset),
    {
        let o = *offset;
        if data.len() - o < 4 {
            return Err(String::from_str("Unexpected EOF while reading u32"));
        }
        let v: u32 = data[o] as u32 + data[o + 1] as u32 * 0x100 + data[o + 2] as u32 * 0x10000
            + data[o + 3] as u32 * 0x1000000;
        *offset = o + 4;
        Ok(v)
    }

    /// A compressed block at the offset, which moves behind it: the expected
    /// number of entries and the first `sample_count` of them decoded.
    fn read_leb128_block(data: &[u8], offset: &mut usize, expected_count: usize, sample_count: usize) -> (r: Result<(usize, Vec<i16>), String>)
        requires
            *old(offset) <= data@.len(),
        ensures
            r is Err <==> leb_block(data@, *old(offset) as int, expected_count as nat, sample_count as nat) is None,
            r matches Ok((n, s)) ==> n == expected_count
                && leb_block(data@, *old(offset) as int, expected_count as nat, sample_count as nat)
                    == Some((*final(offset) as int, s@))
                && *final(offset) <= data@.len(),
    {
        let ghost d = data@;
        let ghost o0 = *offset as int;
        let magic_len: usize = 17;
        if data.len() - *offset < magic_len {
            return Err(String::from_str("Unexpected EOF reading LEB128 magic"));
        }
        let mut k: usize = 0;
        while k < magic_len
            invariant
                magic_len == 17,
                k <= 17,
                *offset == o0,
                o0 + 17 <= d.len(),
                d == data@,
                data.len() == d.len(),
                forall|j: int| 0 <= j < k ==> d[o0 + j] == SF_LEB128_MAGIC@[j],
            decreases 17 - k,
        {
            if data[*offset + k] != SF_LEB128_MAGIC[k] {
                assert(d.subrange(o0, o0 + 17)[k as int] != SF_LEB128_MAGIC@[k as int]);
                return Err(String::from_str("Invalid LEB128 magic string"));
            }
            k = k + 1;
        }
        assert(d.subrange(o0, o0 + 17) =~= SF_LEB128_MAGIC@);
        *offset = *offset + magic_len;
        let byte_count_word = Self::read_u32(data, offset)?;
        let byte_count = byte_count_word as usize;
        if byte_count > data.len() - *offset {
            return Err(String::from_str("LEB128 compressed block length exceeds file boundaries"));
        }
        let payload_end = *offset + byte_count;
        let mut samples: Vec<i16> = Vec::new();
        if sample_count > 0 {
            let n = if sample_count <= expected_count { sample_count } else { expected_count };
            let ghost start = *offset as int;
            assert(leb_block(d, o0, expected_count as nat, sample_count as nat) == match leb_samples(d, start, payload_end as int, n as nat) {
                None => None,
                Some(s) => Some((payload_end as int, s)),
            });
            let mut curr = *offset;
            let mut j: usize = 0;
            while j < n && curr < payload_end
                invariant
                    j <= n,
                    o0 == *old(offset),
                    start <= curr <= payload_end,
                    payload_end <= data@.len(),
                    d == data@,
                    leb_block(d, o0, expected_count as nat, sample_count as nat) == match leb_samples(d, start, payload_end as int, n as nat) {
                        None => None,
                        Some(s) => Some((payload_end as int, s)),
                    },
                    leb_samples(d, start, payload_end as int, n as nat) == match leb_samples(d, curr as int, payload_end as int, (n - j) as nat) {
                        None => None,
                        Some(rest) => Some(samples@ + rest),
                    },
                decreases n - j,
            {
                let decoded = Self::decode_signed_leb128(data, curr, payload_end);
                let (val, next_curr) = match decoded {
                    Ok(p) => p,
                    Err(e) => {
                        assert(leb_samples(d, curr as int, payload_end as int, (n - j) as nat) is None);
                        return Err(e);
                    },
                };
                let ghost before = samples@;
                samples.push(#[verifier::truncate] (val as i16));
                proof {
                    let tail = leb_samples(d, next_curr as int, payload_end as int, (n - j - 1) as nat);
                    if let Some(rest) = tail {
                        assert(before + (seq![val as i16] + rest) =~= samples@ + rest);
                    }
                }
                curr = next_curr;
                j = j + 1;
            }
            proof {
                assert(samples@ + Seq::<i16>::empty() =~= samples@);
            }
        }
        *offset = payload_end;
        Ok((expected_count, samples))
    }

    /// One signed LEB128 number from `curr`, which must end before `end`: its
    /// value and the offset behind it.
    fn decode_signed_leb128(data: &[u8], curr: usize, end: usize) -> (r: Result<(i32, usize), String>)
        requires
            end <= data@.len(),
        ensures
            r is Err <==> leb_decode(data@, curr as int, end as int, 0, 0) is None,
            r matches Ok((v, next)) ==> leb_decode(data@, curr as int, end as int, 0, 0) == Some((v, next as int))
                && curr < next <= end,
    {
        let ghost d = data@;
        let mut result: u32 = 0;
        let mut rot: u32 = 0;
        let mut wide = false;
        let mut c = curr;
        let ghost mut shift: nat = 0;
        loop
            invariant
                end <= data@.len(),
                d == data@,
                curr <= c,
                rot == shift % 32,
                rot < 32,
                wide == (shift >= 32),
                leb_decode(d, curr as int, end as int, 0, 0) == leb_decode(d, c as int, end as int, result, shift),
            decreases end - c,
        {
            if c >= end {
                return Err(String::from_str("LEB128 stream terminated prematurely"));
            }
            let byte = data[c];
            c = c + 1;
            result = result | (((byte & 0x7f) as u32) << rot);
            if (byte & 0x80) == 0 {
                let signed: i32 = if !wide && rot < 25 && (byte & 0x40) != 0 {
                    (result | (!0u32 << (rot + 7))) as i32
                } else {
                    result as i32
                };
                return Ok((signed, c));
            }
            wide = wide || rot >= 25;
            rot = (rot + 7) % 32;
            proof {
                shift = shift + 7;
            }
        }
    }
}

} // verus!
