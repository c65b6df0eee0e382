//! Chunked files: naming part files, recognising them and ordering them by
//! their part number, splitting an input into encoded pieces, and
//! reassembling the pieces into the original bytes.

use vstd::prelude::*;
use crate::engine::TranscendentalEngine;
use crate::transform::{stream_decoded, stream_encoded, lemma_stream_round_trip};
use crate::progress::{ProgressSink, progress_seq_from};
use crate::decimal::{
    all_digits, canonical_dec, dec_digits, dec_string, dec_value, digit_of, is_digit_char,
    lemma_dec_digits_of_value, lemma_dec_digits_props, lemma_dec_take_step,
    lemma_dec_value_prefix_le,
};

verus! {

/// Whether `name` names part `k` of a file whose name stem is `stem`: the
/// stem, then the marker `.part`, then the part number in decimal.
pub open spec fn spec_is_part_name(name: Seq<char>, stem: Seq<char>, k: int) -> bool {
    &&& k >= 0
    &&& name == stem + ".part"@ + dec_digits(k)
}

/// The part number of a matching name.
pub open spec fn spec_part_number(name: Seq<char>, stem: Seq<char>) -> int {
    choose|k: int| spec_is_part_name(name, stem, k)
}

/// What a part name looks like from the inside: its pieces, where they sit,
/// and that the number part is a canonical numeral worth `k`.
pub proof fn lemma_part_digits(name: Seq<char>, stem: Seq<char>, k: int)
    requires
        spec_is_part_name(name, stem, k),
    ensures
        name.len() == stem.len() + 5 + dec_digits(k).len(),
        dec_digits(k) == name.subrange(stem.len() as int + 5, name.len() as int),
        dec_digits(k).len() >= 1,
        canonical_dec(dec_digits(k)),
        dec_value(dec_digits(k)) == k,
        forall|i: int| 0 <= i < stem.len() ==> name[i] == stem[i],
        forall|i: int| 0 <= i < 5 ==> name[stem.len() + i] == ".part"@[i],
{
    reveal_strlit(".part");
    lemma_dec_digits_props(k);
    assert(dec_digits(k) =~= name.subrange(stem.len() as int + 5, name.len() as int));
}

/// Each matching name carries exactly one part number.
pub proof fn lemma_part_number_unique(name: Seq<char>, stem: Seq<char>, k1: int, k2: int)
    requires
        spec_is_part_name(name, stem, k1),
        spec_is_part_name(name, stem, k2),
    ensures
        k1 == k2,
{
    lemma_part_digits(name, stem, k1);
    lemma_part_digits(name, stem, k2);
    crate::decimal::lemma_dec_digits_injective(k1, k2);
}

/// Builds the name of part `k` for a file stem: the stem, the marker
/// `.part`, and the part number in decimal, with no zero padding.
pub fn part_name(stem: &str, k: u64) -> (s: String)
    ensures
        s@ == stem@ + ".part"@ + dec_digits(k as int),
        spec_is_part_name(s@, stem@, k as int),
{
    let mut s = String::from_str(stem);
    s.append(".part");
    let num = dec_string(k);
    s.append(num.as_str());
    proof {
        assert(s@ =~= stem@ + ".part"@ + dec_digits(k as int));
    }
    s
}

/// Reads the part number out of a file name, if the name is exactly a part
/// name for `stem`: returns the number `k` with `name == stem.partk`, and
/// `None` when no part number at all (up to the largest representable
/// number) gives this name.
pub fn parse_part_number(name: &str, stem: &str) -> (r: Option<u64>)
    ensures
        match r {
            Some(k) => spec_is_part_name(name@, stem@, k as int),
            None => forall|k: int| 0 <= k <= u64::MAX ==> !spec_is_part_name(name@, stem@, k),
        },
{
    proof {
        reveal_strlit(".part");
    }
    let marker = ".part";
    let nl = name.unicode_len();
    let sl = stem.unicode_len();
    if nl <= sl || nl - sl < 6 {
        proof {
            assert forall|k: int| 0 <= k <= u64::MAX implies !spec_is_part_name(
                name@,
                stem@,
                k,
            ) by {
                if spec_is_part_name(name@, stem@, k) {
                    lemma_part_digits(name@, stem@, k);
                }
            }
        }
        return None;
    }
    let mut j: usize = 0;
    while j < sl
        invariant
            j <= sl,
            sl == stem@.len(),
            nl == name@.len(),
            nl >= sl + 6,
            forall|i: int| 0 <= i < j ==> name@[i] == stem@[i],
        decreases sl - j,
    {
        if name.get_char(j) != stem.get_char(j) {
            proof {
                assert forall|k: int| 0 <= k <= u64::MAX implies !spec_is_part_name(
                    name@,
                    stem@,
                    k,
                ) by {
                    if spec_is_part_name(name@, stem@, k) {
                        lemma_part_digits(name@, stem@, k);
                    }
                }
            }
            return None;
        }
        j = j + 1;
    }
    let mut j2: usize = 0;
    while j2 < 5
        invariant
            j2 <= 5,
            sl == stem@.len(),
            nl == name@.len(),
            nl >= sl + 6,
            ".part"@.len() == 5,
            marker@ == ".part"@,
            forall|i: int| 0 <= i < sl ==> name@[i] == stem@[i],
            forall|i: int| 0 <= i < j2 ==> name@[sl + i] == ".part"@[i],
        decreases 5 - j2,
    {
        if name.get_char(sl + j2) != marker.get_char(j2) {
            proof {
                assert forall|k: int| 0 <= k <= u64::MAX implies !spec_is_part_name(
                    name@,
                    stem@,
                    k,
                ) by {
                    if spec_is_part_name(name@, stem@, k) {
                        lemma_part_digits(name@, stem@, k);
                    }
                }
            }
            return None;
        }
        j2 = j2 + 1;
    }
    let ds = sl + 5;
    let ghost dseq = name@.subrange(ds as int, nl as int);
    if nl - ds > 1 && name.get_char(ds) == '0' {
        proof {
            assert forall|k: int| 0 <= k <= u64::MAX implies !spec_is_part_name(
                name@,
                stem@,
                k,
            ) by {
                if spec_is_part_name(name@, stem@, k) {
                    lemma_part_digits(name@, stem@, k);
                    assert(dec_digits(k)[0] == name@[ds as int]);
                }
            }
        }
        return None;
    }
    let mut acc: u64 = 0;
    let mut p: usize = ds;
    while p < nl
        invariant
            ds <= p <= nl,
            nl == name@.len(),
            sl == stem@.len(),
            ds == sl + 5,
            nl >= ds + 1,
            dseq == name@.subrange(ds as int, nl as int),
            ".part"@.len() == 5,
            forall|i: int| 0 <= i < sl ==> name@[i] == stem@[i],
            forall|i: int| 0 <= i < 5 ==> name@[sl + i] == ".part"@[i],
            nl - ds > 1 ==> name@[ds as int] != '0',
            all_digits(dseq.take(p - ds)),
            acc as int == dec_value(dseq.take(p - ds)),
        decreases nl - p,
    {
        let c = name.get_char(p);
        proof {
            assert(dseq[p - ds] == c);
            lemma_dec_take_step(dseq, p - ds);
        }
        match digit_of(c) {
            None => {
                proof {
                    assert forall|k: int| 0 <= k <= u64::MAX implies !spec_is_part_name(
                        name@,
                        stem@,
                        k,
                    ) by {
                        if spec_is_part_name(name@, stem@, k) {
                            lemma_part_digits(name@, stem@, k);
                            assert(dec_digits(k) == dseq);
                            assert(all_digits(dseq));
                            assert(is_digit_char(dseq[p - ds]));
                        }
                    }
                }
                return None;
            },
            Some(d) => {
                let next = match acc.checked_mul(10) {
                    Some(v) => v.checked_add(d),
                    None => None,
                };
                match next {
                    Some(v) => {
                        acc = v;
                        proof {
                            assert(dseq.take(p + 1 - ds) == dseq.take((p - ds) + 1));
                            assert(all_digits(dseq.take(p + 1 - ds))) by {
                                assert(forall|i: int|
                                    0 <= i < p + 1 - ds ==> dseq.take(p + 1 - ds)[i] == dseq[i]);
                                assert(forall|i: int|
                                    0 <= i < p - ds ==> dseq.take(p - ds)[i] == dseq[i]);
                            }
                        }
                    },
                    None => {
                        proof {
                            assert(acc as int * 10 + d as int > u64::MAX);
                            assert forall|k: int| 0 <= k <= u64::MAX implies !spec_is_part_name(
                                name@,
                                stem@,
                                k,
                            ) by {
                                if spec_is_part_name(name@, stem@, k) {
                                    lemma_part_digits(name@, stem@, k);
                                    assert(dec_digits(k) == dseq);
                                    assert(dec_value(dseq.take((p - ds) + 1)) > u64::MAX);
                                    lemma_dec_value_prefix_le(dseq, (p - ds) + 1);
                                    assert(k > u64::MAX);
                                }
                            }
                        }
                        return None;
                    },
                }
            },
        }
        p = p + 1;
    }
    proof {
        assert(dseq.take(p - ds) =~= dseq);
        assert(dseq.len() >= 1);
        assert(dseq.len() > 1 ==> dseq[0] != '0') by {
            assert(dseq[0] == name@[ds as int]);
        }
        assert(canonical_dec(dseq));
        lemma_dec_digits_of_value(dseq);
        assert(name@ =~= stem@ + ".part"@ + dseq);
    }
    Some(acc)
}

/// Whether `name` names a part of `stem` with a number the machine can
/// represent. Part numbers beyond that bound are never produced by a split,
/// so discovery does not recognise them.
pub open spec fn spec_recognized(name: Seq<char>, stem: Seq<char>) -> bool {
    exists|k: int| 0 <= k <= u64::MAX && spec_is_part_name(name, stem, k)
}

/// The names among `names` that name a part of `stem`, in their original
/// order.
pub open spec fn spec_part_names(names: Seq<String>, stem: Seq<char>) -> Seq<String> {
    names.filter(|n: String| spec_recognized(n@, stem))
}

/// Filtering one more name keeps the part names in order: the new name is
/// kept exactly when it is recognised.
pub proof fn lemma_part_names_push(names: Seq<String>, stem: Seq<char>, x: String)
    ensures
        spec_part_names(names.push(x), stem) == (if spec_recognized(x@, stem) {
            spec_part_names(names, stem).push(x)
        } else {
            spec_part_names(names, stem)
        }),
{
    reveal(Seq::filter);
    assert(names.push(x).drop_last() =~= names);
    assert(names.push(x).last() == x);
}

/// A matching name's one part number is what `spec_part_number` denotes.
pub proof fn lemma_part_number_of(name: Seq<char>, stem: Seq<char>, k: int)
    requires
        spec_is_part_name(name, stem, k),
    ensures
        spec_part_number(name, stem) == k,
{
    let kk = choose|kk: int| spec_is_part_name(name, stem, kk);
    assert(spec_is_part_name(name, stem, kk));
    lemma_part_number_unique(name, stem, kk, k);
}

/// Picks out of `names` exactly those that name a part of `stem`, and
/// returns them ordered by part number, smallest first.
///
/// Discovery recognises exactly the names a split produces, and it orders
/// them numerically rather than by plain name comparison: a name ordering
/// would place `part10` before `part2` and reassembling in that order
/// would corrupt the result whenever there are ten or more parts. Equal
/// part numbers mean equal names, so the order pins the result completely.
pub fn detect_parts(stem: &str, names: &Vec<String>) -> (parts: Vec<String>)
    ensures
        parts@.to_multiset() == spec_part_names(names@, stem@).to_multiset(),
        forall|a: int, b: int|
            0 <= a <= b < parts@.len() ==> spec_part_number(parts@[a]@, stem@)
                <= spec_part_number(parts@[b]@, stem@),
        forall|a: int| 0 <= a < parts@.len() ==> spec_recognized(parts@[a]@, stem@),
{
    broadcast use vstd::seq_lib::group_to_multiset_ensures;

    let mut parts: Vec<String> = Vec::new();
    let mut nums: Vec<u64> = Vec::new();
    let mut i: usize = 0;
    proof {
        assert(names@.take(0) =~= Seq::<String>::empty());
        reveal(Seq::filter);
        assert(spec_part_names(names@.take(0), stem@) =~= Seq::<String>::empty());
    }
    while i < names.len()
        invariant
            i <= names@.len(),
            parts@.len() == nums@.len(),
            forall|a: int|
                0 <= a < parts@.len() ==> spec_is_part_name(parts@[a]@, stem@, nums@[a] as int),
            forall|a: int, b: int| 0 <= a <= b < nums@.len() ==> nums@[a] <= nums@[b],
            parts@.to_multiset() == spec_part_names(names@.take(i as int), stem@).to_multiset(),
        decreases names@.len() - i,
    {
        broadcast use vstd::seq_lib::group_to_multiset_ensures;

        let name: &String = &names[i];
        let r = parse_part_number(name.as_str(), stem);
        proof {
            assert(names@.take(i + 1) =~= names@.take(i as int).push(names@[i as int]));
            lemma_part_names_push(names@.take(i as int), stem@, names@[i as int]);
        }
        match r {
            Some(k) => {
                let mut pos: usize = 0;
                while pos < nums.len() && nums[pos] <= k
                    invariant
                        pos <= nums@.len(),
                        forall|a: int| 0 <= a < pos ==> nums@[a] <= k,
                        forall|a: int, b: int| 0 <= a <= b < nums@.len() ==> nums@[a] <= nums@[b],
                    decreases nums@.len() - pos,
                {
                    pos = pos + 1;
                }
                proof {
                    assert(spec_recognized(name@, stem@));
                }
                parts.insert(pos, name.clone());
                nums.insert(pos, k);
                proof {
                    assert(parts@.to_multiset() =~= spec_part_names(
                        names@.take(i + 1),
                        stem@,
                    ).to_multiset());
                }
            },
            None => {
                proof {
                    assert(!spec_recognized(name@, stem@));
                }
            },
        }
        i = i + 1;
    }
    proof {
        assert(names@.take(i as int) =~= names@);
        assert forall|a: int, b: int|
            0 <= a <= b < parts@.len() implies spec_part_number(parts@[a]@, stem@)
            <= spec_part_number(parts@[b]@, stem@) by {
            lemma_part_number_of(parts@[a]@, stem@, nums@[a] as int);
            lemma_part_number_of(parts@[b]@, stem@, nums@[b] as int);
        }
        assert forall|a: int| 0 <= a < parts@.len() implies spec_recognized(
            parts@[a]@,
            stem@,
        ) by {
            assert(spec_is_part_name(parts@[a]@, stem@, nums@[a] as int));
        }
    }
    parts
}

/// The input cut into chunks of `sz` bytes: all full chunks first, then one
/// final shorter chunk if anything remains. A chunk size of zero yields no
/// pieces at all: a split whose generator was built with a target length of
/// zero reads nothing and produces no part files, as the pipeline's split
/// loop does.
pub open spec fn spec_pieces(input: Seq<u8>, sz: int) -> Seq<Seq<u8>>
    decreases input.len(),
{
    if sz <= 0 || input.len() == 0 {
        Seq::empty()
    } else if input.len() <= sz {
        seq![input]
    } else {
        seq![input.take(sz)] + spec_pieces(input.skip(sz), sz)
    }
}

/// Each piece, encoded with the keystream.
pub open spec fn spec_encoded_parts(ks: Seq<u8>, pieces: Seq<Seq<u8>>) -> Seq<Seq<u8>> {
    Seq::new(pieces.len(), |i: int| stream_encoded(ks, pieces[i]))
}

/// Each part, decoded with the keystream.
pub open spec fn spec_decoded_parts(ks: Seq<u8>, parts: Seq<Seq<u8>>) -> Seq<Seq<u8>> {
    Seq::new(parts.len(), |i: int| stream_decoded(ks, parts[i]))
}

/// The byte contents of a vector of byte vectors.
pub open spec fn spec_views(parts: Seq<Vec<u8>>) -> Seq<Seq<u8>> {
    Seq::new(parts.len(), |i: int| parts[i]@)
}

/// The byte payloads of the named parts a split returns.
pub open spec fn spec_payloads(parts: Seq<(String, Vec<u8>)>) -> Seq<Seq<u8>> {
    Seq::new(parts.len(), |i: int| parts[i].1@)
}

/// The progress values reported over one split: each piece reports once per
/// block, with the bytes of all earlier pieces added on.
pub open spec fn spec_split_progress(len: int, sz: int, base: int) -> Seq<u64>
    decreases len,
{
    if sz <= 0 || len <= 0 {
        Seq::empty()
    } else if len <= sz {
        progress_seq_from(base, len)
    } else {
        progress_seq_from(base, sz) + spec_split_progress(len - sz, sz, base + sz)
    }
}

/// The progress values reported over a reassembly: each part reports once
/// per block, with the bytes of all earlier parts added on.
pub open spec fn spec_parts_progress(parts: Seq<Seq<u8>>, base: int) -> Seq<u64>
    decreases parts.len(),
{
    if parts.len() == 0 {
        Seq::empty()
    } else {
        progress_seq_from(base, parts.first().len() as int) + spec_parts_progress(
            parts.drop_first(),
            base + parts.first().len(),
        )
    }
}

/// The total byte count of the first `i` parts.
pub open spec fn spec_cum_bytes(parts: Seq<Seq<u8>>, i: int) -> int
    decreases i,
{
    if i <= 0 {
        0
    } else {
        spec_cum_bytes(parts, i - 1) + parts[i - 1].len()
    }
}

/// Byte counts only grow as more parts are taken in.
pub proof fn lemma_cum_bytes_mono(parts: Seq<Seq<u8>>, i: int, j: int)
    requires
        0 <= i <= j,
    ensures
        spec_cum_bytes(parts, i) <= spec_cum_bytes(parts, j),
    decreases j - i,
{
    if i < j {
        lemma_cum_bytes_mono(parts, i, j - 1);
    }
}

/// Concatenating the pieces of a split gives back the input.
pub proof fn lemma_pieces_flatten(input: Seq<u8>, sz: int)
    requires
        sz > 0,
    ensures
        spec_pieces(input, sz).flatten() == input,
    decreases input.len(),
{
    if input.len() == 0 {
        assert(spec_pieces(input, sz) =~= Seq::<Seq<u8>>::empty());
        assert(spec_pieces(input, sz).flatten() =~= input);
    } else if input.len() <= sz {
        let p = spec_pieces(input, sz);
        assert(p == seq![input]);
        p.lemma_flatten_one_element();
        assert(p.first() == input);
    } else {
        lemma_pieces_flatten(input.skip(sz), sz);
        let p = spec_pieces(input, sz);
        assert(p == seq![input.take(sz)] + spec_pieces(input.skip(sz), sz));
        assert(p.first() == input.take(sz));
        assert(p.drop_first() =~= spec_pieces(input.skip(sz), sz));
        assert(p.flatten() == p.first() + p.drop_first().flatten());
        assert(input.take(sz) + input.skip(sz) =~= input);
    }
}

/// The chunking round trip: cutting an input into pieces, encoding each
/// piece, then decoding each part and concatenating them in part order
/// reproduces the input exactly.
pub proof fn lemma_split_round_trip(ks: Seq<u8>, input: Seq<u8>, sz: int)
    requires
        sz > 0,
    ensures
        spec_decoded_parts(ks, spec_encoded_parts(ks, spec_pieces(input, sz))).flatten() == input,
{
    let pieces = spec_pieces(input, sz);
    assert forall|i: int| 0 <= i < pieces.len() implies spec_decoded_parts(
        ks,
        spec_encoded_parts(ks, pieces),
    )[i] == pieces[i] by {
        lemma_stream_round_trip(ks, pieces[i]);
    }
    assert(spec_decoded_parts(ks, spec_encoded_parts(ks, pieces)) =~= pieces);
    lemma_pieces_flatten(input, sz);
}

/// Splits an input into pieces of the generator's chunk size, encodes each
/// piece with the generator's one keystream, and names each piece in
/// creation order. Progress is cumulative across the whole input.
pub fn split_with_engine<S: ProgressSink>(
    stem: &str,
    engine: &TranscendentalEngine,
    input: &[u8],
    sink: &mut S,
) -> (parts: Vec<(String, Vec<u8>)>)
    ensures
        spec_payloads(parts@) == spec_encoded_parts(
            engine@,
            spec_pieces(input@, engine.chunk_size as int),
        ),
        forall|i: int| 0 <= i < parts@.len() ==> spec_is_part_name(parts@[i].0@, stem@, i),
        final(sink).history() == old(sink).history() + spec_split_progress(
            input@.len() as int,
            engine.chunk_size as int,
            0,
        ),
{
    let ghost ks = engine@;
    let ghost csz = engine.chunk_size as int;
    let sz = engine.chunk_size;
    let total = input.len();
    let mut parts: Vec<(String, Vec<u8>)> = Vec::new();
    if sz == 0 {
        proof {
            assert(spec_pieces(input@, csz) =~= Seq::<Seq<u8>>::empty());
            assert(spec_payloads(parts@) =~= spec_encoded_parts(ks, spec_pieces(input@, csz)));
            assert(sink.history() =~= old(sink).history() + spec_split_progress(
                input@.len() as int,
                csz,
                0,
            ));
        }
        return parts;
    }
    let ghost pieces = spec_pieces(input@, csz);
    let mut pos: usize = 0;
    proof {
        assert(input@.skip(0) =~= input@);
        assert(pieces.skip(0) =~= pieces);
        assert(spec_payloads(parts@) =~= spec_encoded_parts(ks, pieces.take(0)));
    }
    while pos < total
        invariant
            engine@ == ks,
            sz == engine.chunk_size,
            sz == csz,
            sz > 0,
            total == input@.len(),
            pos <= total,
            pieces == spec_pieces(input@, csz),
            parts@.len() <= pieces.len(),
            pos == parts@.len() * csz || pos == total,
            spec_pieces(input@.skip(pos as int), csz) == pieces.skip(parts@.len() as int),
            spec_payloads(parts@) == spec_encoded_parts(ks, pieces.take(parts@.len() as int)),
            forall|i: int| 0 <= i < parts@.len() ==> spec_is_part_name(parts@[i].0@, stem@, i),
            old(sink).history() + spec_split_progress(total as int, csz, 0) == sink.history()
                + spec_split_progress(total as int - pos as int, csz, pos as int),
        decreases total - pos,
    {
        let end = if total - pos > sz {
            pos + sz
        } else {
            total
        };
        let piece = &input[pos..end];
        let ghost n = parts@.len() as int;
        proof {
            assert(input@.skip(pos as int).len() == total - pos);
            if total - pos <= sz {
                assert(piece@ =~= input@.skip(pos as int));
                assert(spec_pieces(input@.skip(pos as int), csz) == seq![input@.skip(pos as int)]);
                assert(spec_pieces(input@.skip(end as int), csz) =~= Seq::<Seq<u8>>::empty());
                assert(pieces.skip(n) == seq![piece@] + Seq::<Seq<u8>>::empty());
                assert(seq![piece@] + Seq::<Seq<u8>>::empty() =~= seq![piece@]);
            } else {
                assert(piece@ =~= input@.skip(pos as int).take(csz));
                assert(input@.skip(pos as int).skip(csz) =~= input@.skip(end as int));
                assert(pieces.skip(n) == seq![piece@] + spec_pieces(input@.skip(end as int), csz));
            }
            assert(pieces.skip(n)[0] == piece@);
            assert(0 <= n <= pieces.len());
            assert(pieces.skip(n).len() == pieces.len() - n);
            assert(pieces.skip(n).len() >= 1);
            assert(n < pieces.len());
            assert(pieces[n] == piece@);
            assert(pieces.skip(n).drop_first() =~= pieces.skip(n + 1));
            assert(spec_pieces(input@.skip(end as int), csz) =~= pieces.skip(n + 1));
        }
        let num = parts.len() as u64;
        let name = part_name(stem, num);
        let payload = engine.run(piece, pos as u64, sink, false);
        parts.push((name, payload));
        proof {
            assert(spec_payloads(parts@) =~= spec_encoded_parts(ks, pieces.take(n)).push(
                stream_encoded(ks, pieces[n]),
            ));
            assert(spec_encoded_parts(ks, pieces.take(n + 1)) =~= spec_encoded_parts(
                ks,
                pieces.take(n),
            ).push(stream_encoded(ks, pieces[n])));
            assert(spec_split_progress(total as int - pos as int, csz, pos as int)
                == progress_seq_from(pos as int, piece@.len() as int) + spec_split_progress(
                total as int - end as int,
                csz,
                end as int,
            ));
            assert(old(sink).history() + spec_split_progress(total as int, csz, 0)
                =~= sink.history() + spec_split_progress(
                total as int - end as int,
                csz,
                end as int,
            ));
            if end < total {
                assert(end == (n + 1) * csz) by (nonlinear_arith)
                    requires
                        end == pos + csz,
                        pos == n * csz,
                ;
            }
        }
        pos = end;
    }
    proof {
        assert(input@.skip(total as int).len() == 0);
        assert(spec_pieces(input@.skip(total as int), csz) =~= Seq::<Seq<u8>>::empty());
        assert(pieces.skip(parts@.len() as int).len() == 0);
        assert(parts@.len() == pieces.len());
        assert(pieces.take(parts@.len() as int) =~= pieces);
        assert(spec_split_progress(0, csz, total as int) =~= Seq::<u64>::empty());
        assert(sink.history() + Seq::<u64>::empty() =~= sink.history());
    }
    parts
}

/// Reassembles parts in the order given: each part is decoded with the
/// generator's one keystream and the results are concatenated. Progress is
/// cumulative across all parts.
pub fn join_with_engine<S: ProgressSink>(
    engine: &TranscendentalEngine,
    parts: &Vec<Vec<u8>>,
    sink: &mut S,
) -> (out: Vec<u8>)
    requires
        spec_cum_bytes(spec_views(parts@), parts@.len() as int) <= u64::MAX,
    ensures
        out@ == spec_decoded_parts(engine@, spec_views(parts@)).flatten(),
        final(sink).history() == old(sink).history() + spec_parts_progress(
            spec_views(parts@),
            0,
        ),
{
    let ghost ks = engine@;
    let ghost views = spec_views(parts@);
    let mut out: Vec<u8> = Vec::new();
    let mut done: u64 = 0;
    let mut i: usize = 0;
    proof {
        assert(spec_decoded_parts(ks, views.take(0)) =~= Seq::<Seq<u8>>::empty());
        assert(out@ =~= spec_decoded_parts(ks, views.take(0)).flatten());
        assert(views.skip(0) =~= views);
        assert(sink.history() + spec_parts_progress(views, 0) =~= old(sink).history()
            + spec_parts_progress(views.skip(0), 0));
    }
    while i < parts.len()
        invariant
            engine@ == ks,
            views == spec_views(parts@),
            i <= parts@.len(),
            done as int == spec_cum_bytes(views, i as int),
            spec_cum_bytes(views, parts@.len() as int) <= u64::MAX,
            out@ == spec_decoded_parts(ks, views.take(i as int)).flatten(),
            old(sink).history() + spec_parts_progress(views, 0) == sink.history()
                + spec_parts_progress(views.skip(i as int), done as int),
        decreases parts@.len() - i,
    {
        let part: &Vec<u8> = &parts[i];
        proof {
            assert(views[i as int] == part@);
            assert(spec_cum_bytes(views, i + 1) == done + part@.len());
            lemma_cum_bytes_mono(views, 0, i as int);
            lemma_cum_bytes_mono(views, i + 1, parts@.len() as int);
            assert(views.skip(i as int).first() == views[i as int]);
            assert(views.skip(i as int).drop_first() =~= views.skip(i + 1));
        }
        let mut piece = engine.run(part.as_slice(), done, sink, true);
        out.append(&mut piece);
        proof {
            let d = stream_decoded(ks, views[i as int]);
            assert(spec_decoded_parts(ks, views.take(i + 1)) =~= spec_decoded_parts(
                ks,
                views.take(i as int),
            ).push(d));
            spec_decoded_parts(ks, views.take(i as int)).lemma_flatten_push(d);
        }
        done = done + part.len() as u64;
        i = i + 1;
    }
    proof {
        assert(views.take(i as int) =~= views);
        assert(views.skip(i as int).len() == 0);
        assert(spec_parts_progress(views.skip(i as int), done as int)
            =~= Seq::<u64>::empty());
        assert(sink.history() + Seq::<u64>::empty() =~= sink.history());
    }
    out
}


/// One more part at the front: the byte count of `i + 1` parts is the first
/// part's length plus the byte count of `i` parts of the rest.
pub proof fn lemma_cum_drop_first(parts: Seq<Seq<u8>>, i: int)
    requires
        0 <= i < parts.len(),
    ensures
        spec_cum_bytes(parts, i + 1) == parts[0].len() + spec_cum_bytes(parts.drop_first(), i),
    decreases i,
{
    if i > 0 {
        lemma_cum_drop_first(parts, i - 1);
        assert(parts.drop_first()[i - 1] == parts[i]);
        assert(spec_cum_bytes(parts, i + 1) == spec_cum_bytes(parts, i) + parts[i].len());
        assert(spec_cum_bytes(parts.drop_first(), i) == spec_cum_bytes(parts.drop_first(), i - 1)
            + parts.drop_first()[i - 1].len());
    } else {
        assert(spec_cum_bytes(parts, 1) == spec_cum_bytes(parts, 0) + parts[0].len());
        assert(spec_cum_bytes(parts.drop_first(), 0) == 0);
    }
}

/// The progress reported over a whole split never decreases, stays within
/// the job's byte range, and ends at the input's total byte count (an
/// empty input reports nothing).
pub proof fn lemma_split_progress_monotone(len: int, sz: int, base: int)
    requires
        0 <= len,
        sz > 0,
        0 <= base,
        base + len <= u64::MAX,
    ensures
        forall|i: int, j: int|
            0 <= i <= j < spec_split_progress(len, sz, base).len() ==> spec_split_progress(
                len,
                sz,
                base,
            )[i] <= spec_split_progress(len, sz, base)[j],
        forall|i: int|
            0 <= i < spec_split_progress(len, sz, base).len() ==> base
                < #[trigger] spec_split_progress(len, sz, base)[i] <= base + len,
        len > 0 ==> spec_split_progress(len, sz, base).len() > 0 && spec_split_progress(
            len,
            sz,
            base,
        ).last() == (base + len) as u64,
        len == 0 ==> spec_split_progress(len, sz, base).len() == 0,
    decreases len,
{
    let s = spec_split_progress(len, sz, base);
    if len <= 0 {
    } else if len <= sz {
        crate::progress::lemma_progress_from_monotone(base, len);
    } else {
        crate::progress::lemma_progress_from_monotone(base, sz);
        lemma_split_progress_monotone(len - sz, sz, base + sz);
        let a = progress_seq_from(base, sz);
        let b = spec_split_progress(len - sz, sz, base + sz);
        assert(s == a + b);
        assert(b.len() > 0);
        assert forall|i: int| 0 <= i < s.len() implies base < #[trigger] s[i] <= base + len by {
            if i < a.len() {
                assert(s[i] == a[i]);
            } else {
                assert(s[i] == b[i - a.len()]);
            }
        }
        assert forall|i: int, j: int| 0 <= i <= j < s.len() implies s[i] <= s[j] by {
            if j < a.len() {
                assert(s[i] == a[i] && s[j] == a[j]);
            } else if i >= a.len() {
                assert(s[i] == b[i - a.len()] && s[j] == b[j - a.len()]);
            } else {
                assert(s[i] == a[i] && s[j] == b[j - a.len()]);
                assert(a[i] <= base + sz);
                assert(base + sz < b[j - a.len()]);
            }
        }
        assert(s.last() == b[b.len() - 1]);
        assert(b.last() == (base + len) as u64);
    }
}

/// The progress reported over a whole reassembly never decreases, stays
/// within the job's byte range, and ends at the parts' total byte count
/// (a reassembly of nothing but empty parts reports nothing).
pub proof fn lemma_parts_progress_monotone(parts: Seq<Seq<u8>>, base: int)
    requires
        0 <= base,
        base + spec_cum_bytes(parts, parts.len() as int) <= u64::MAX,
    ensures
        forall|i: int, j: int|
            0 <= i <= j < spec_parts_progress(parts, base).len() ==> spec_parts_progress(
                parts,
                base,
            )[i] <= spec_parts_progress(parts, base)[j],
        forall|i: int|
            0 <= i < spec_parts_progress(parts, base).len() ==> base
                < #[trigger] spec_parts_progress(parts, base)[i] <= base + spec_cum_bytes(
                parts,
                parts.len() as int,
            ),
        spec_cum_bytes(parts, parts.len() as int) > 0 ==> spec_parts_progress(parts, base).len()
            > 0 && spec_parts_progress(parts, base).last() == (base + spec_cum_bytes(
            parts,
            parts.len() as int,
        )) as u64,
        spec_cum_bytes(parts, parts.len() as int) == 0 ==> spec_parts_progress(
            parts,
            base,
        ).len() == 0,
    decreases parts.len(),
{
    let s = spec_parts_progress(parts, base);
    let cum = spec_cum_bytes(parts, parts.len() as int);
    lemma_cum_bytes_mono(parts, 0, parts.len() as int);
    if parts.len() == 0 {
    } else {
        let rest = parts.drop_first();
        let l0 = parts[0].len() as int;
        lemma_cum_drop_first(parts, parts.len() - 1);
        assert(rest.len() == parts.len() - 1);
        assert(cum == l0 + spec_cum_bytes(rest, rest.len() as int));
        let cumr = spec_cum_bytes(rest, rest.len() as int);
        lemma_cum_bytes_mono(rest, 0, rest.len() as int);
        crate::progress::lemma_progress_from_monotone(base, l0);
        lemma_parts_progress_monotone(rest, base + l0);
        let a = progress_seq_from(base, l0);
        let b = spec_parts_progress(rest, base + l0);
        assert(parts.first() == parts[0]);
        assert(s == a + b);
        assert forall|i: int| 0 <= i < s.len() implies base < #[trigger] s[i] <= base + cum by {
            if i < a.len() {
                assert(s[i] == a[i]);
            } else {
                assert(s[i] == b[i - a.len()]);
            }
        }
        assert forall|i: int, j: int| 0 <= i <= j < s.len() implies s[i] <= s[j] by {
            if j < a.len() {
                assert(s[i] == a[i] && s[j] == a[j]);
            } else if i >= a.len() {
                assert(s[i] == b[i - a.len()] && s[j] == b[j - a.len()]);
            } else {
                assert(s[i] == a[i] && s[j] == b[j - a.len()]);
                assert(a[i] <= base + l0);
                assert(base + l0 < b[j - a.len()]);
            }
        }
        if cum > 0 {
            if cumr > 0 {
                assert(b.len() > 0);
                assert(s.last() == b[b.len() - 1]);
                assert(b.last() == (base + cum) as u64);
            } else {
                assert(b.len() == 0);
                assert(l0 == cum);
                assert(l0 > 0);
                assert(a.len() > 0);
                assert(s.last() == a[a.len() - 1]);
                assert(a.last() == (base + l0) as u64);
            }
        }
    }
}


} // verus!
