//! The mixer: the sum of any number of sources, which come and go.

use vstd::prelude::*;
use crate::format::{AudioFormat, ReadResult, StreamState};
use crate::sample::{multiplies, silent, sums, Sample};
use crate::slots::{
    bits_of, insert_slot, key_bits, live_keys, new_slots, remove_slot, KeySlots, MAX_KEYS,
};
use crate::source::AudioSource;
use slotmap::DefaultKey;

verus! {

/// `kept` is `output` with every sample from index `read` on replaced by
/// silence.
pub open spec fn silenced_after<T: Sample>(output: Seq<T>, read: int, kept: Seq<T>) -> bool {
    &&& kept.len() == output.len()
    &&& forall|i: int| 0 <= i < read && i < output.len() ==> #[trigger] kept[i] == output[i]
    &&& forall|i: int| read <= i < output.len() ==> silent(#[trigger] kept[i])
}

/// `total` holds, at each index, the sum of `base` and `part` there.
pub open spec fn accumulated<T: Sample>(base: Seq<T>, part: Seq<T>, total: Seq<T>) -> bool {
    &&& total.len() == base.len()
    &&& forall|i: int| 0 <= i < base.len() ==> sums(base[i], part[i], #[trigger] total[i])
}

/// `scaled` holds, at each index, the sample of `input` times `gain`.
pub open spec fn scaled<T: Sample>(input: Seq<T>, gain: T, scaled: Seq<T>) -> bool {
    &&& scaled.len() == input.len()
    &&& forall|i: int| 0 <= i < input.len() ==> multiplies(input[i], gain, #[trigger] scaled[i])
}

/// What a mixer reports for a buffer of `len` samples, the longest of its
/// sources having given `read` of them: `Good` with the whole buffer, or
/// else `Underrun` with `read`.
pub open spec fn mix_result(read: int, len: int) -> ReadResult {
    if read < len {
        ReadResult { state: StreamState::Underrun, read: read as usize }
    } else {
        ReadResult { state: StreamState::Good, read: len as usize }
    }
}

/// The largest count among `results`, zero if there is none.
pub open spec fn longest(results: Seq<ReadResult>) -> int
    decreases results.len(),
{
    if results.len() == 0 {
        0
    } else {
        let rest = longest(results.drop_last());
        if results.last().read > rest {
            results.last().read as int
        } else {
            rest
        }
    }
}

/// Replaces every sample from index `read` on by silence: the tail that a
/// source left undefined.
pub fn silence_tail<T: Sample>(buffer: &mut [T], read: usize)
    ensures
        silenced_after(old(buffer)@, read as int, final(buffer)@),
{
    let len = buffer.len();
    let mut i: usize = if read < len { read } else { len };
    while i < len
        invariant
            len == buffer.len(),
            buffer@.len() == old(buffer)@.len(),
            read <= i <= len || (read > len && i == len),
            forall|j: int| 0 <= j < read && j < len ==> #[trigger] buffer@[j] == old(buffer)@[j],
            forall|j: int| read <= j < i ==> silent(#[trigger] buffer@[j]),
        decreases len - i,
    {
        buffer[i] = T::silence();
        i += 1;
    }
}

/// Adds `scratch` to `output`, sample by sample.
pub fn accumulate<T: Sample>(output: &mut [T], scratch: &[T])
    requires
        old(output)@.len() == scratch@.len(),
    ensures
        accumulated(old(output)@, scratch@, final(output)@),
{
    let len = output.len();
    let mut i: usize = 0;
    while i < len
        invariant
            len == output.len(),
            len == scratch.len(),
            output@.len() == old(output)@.len(),
            i <= len,
            forall|j: int| 0 <= j < i ==> sums(old(output)@[j], scratch@[j], #[trigger] output@[j]),
            forall|j: int| i <= j < len ==> #[trigger] output@[j] == old(output)@[j],
        decreases len - i,
    {
        output[i] = output[i].sum(scratch[i]);
        i += 1;
    }
}

/// Multiplies every sample of `buffer` by `gain`.
pub fn scale<T: Sample>(buffer: &mut [T], gain: T)
    ensures
        scaled(old(buffer)@, gain, final(buffer)@),
{
    let len = buffer.len();
    let mut i: usize = 0;
    while i < len
        invariant
            len == buffer.len(),
            buffer@.len() == old(buffer)@.len(),
            i <= len,
            forall|j: int| 0 <= j < i ==> multiplies(old(buffer)@[j], gain, #[trigger] buffer@[j]),
            forall|j: int| i <= j < len ==> #[trigger] buffer@[j] == old(buffer)@[j],
        decreases len - i,
    {
        buffer[i] = buffer[i].product(gain);
        i += 1;
    }
}

/// Makes `scratch` hold `len` samples: it is cut to that length, or
/// filled up to it with silence.
fn fit<T: Sample>(scratch: &mut Vec<T>, len: usize)
    ensures
        final(scratch)@.len() == len,
        forall|i: int|
            0 <= i < len && i < old(scratch)@.len() ==> #[trigger] final(scratch)@[i] == old(
                scratch,
            )@[i],
        forall|i: int| old(scratch)@.len() <= i < len ==> silent(#[trigger] final(scratch)@[i]),
{
    scratch.truncate(len);
    let ghost cut = scratch@;
    while scratch.len() < len
        invariant
            scratch.len() <= len,
            cut.len() <= scratch.len(),
            cut.len() <= old(scratch)@.len(),
            cut.len() == old(scratch)@.len() || cut.len() == len,
            forall|i: int| 0 <= i < cut.len() ==> #[trigger] scratch@[i] == old(scratch)@[i],
            forall|i: int| cut.len() <= i < scratch.len() ==> silent(#[trigger] scratch@[i]),
        decreases len - scratch.len(),
    {
        scratch.push(T::silence());
    }
}

/// What a mixer reports for a buffer of `len` samples, the longest of its
/// sources having given `read` of them.
pub fn result_of(read: usize, len: usize) -> (result: ReadResult)
    ensures
        result == mix_result(read as int, len as int),
{
    if read < len {
        ReadResult::underrun(read)
    } else {
        ReadResult::good(len)
    }
}

/// `s` without the element at index `i`, the last element in its place.
pub open spec fn swap_removed<A>(s: Seq<A>, i: int) -> Seq<A> {
    s.update(i, s.last()).drop_last()
}

/// A mixer that combines multiple audio sources.
///
/// This simple mixer adds the samples from the given sources together,
/// and optionally multiplies by a coefficient to give some headroom.
///
/// The sources lie in a vector, in the order in which they are read, each
/// beside the bits of its key. The keys come from a slot map, which knows
/// which of them are in use: a new source gets a key that no source of
/// the mixer holds.
pub struct BasicMixer<T, S> {
    buffer: Vec<T>,
    coefficient: Option<T>,
    slots: KeySlots,
    keys: Vec<u64>,
    sources: Vec<S>,
}

/// A key used to remove sources that have been added to a [`BasicMixer`].
pub struct BasicMixerSource {
    key: DefaultKey,
}

impl BasicMixerSource {
    /// The bits of the key: what tells this source from the others.
    pub closed spec fn bits(&self) -> u64 {
        key_bits(self.key)
    }
}

impl<T: Sample, S: AudioSource<T>> BasicMixer<T, S> {
    /// The sources of the mixer, in the order in which it reads them.
    pub closed spec fn sources(&self) -> Seq<S> {
        self.sources@
    }

    /// The bits of the key of each source.
    pub closed spec fn keys(&self) -> Seq<u64> {
        self.keys@
    }

    /// The number that the mixer multiplies the final samples by, if any.
    pub closed spec fn coefficient(&self) -> Option<T> {
        self.coefficient
    }

    /// The mixer `after` is `self` with `source` added behind the others,
    /// under a key that `self` did not hold.
    pub open spec fn adds(&self, source: S, handle: BasicMixerSource, after: &Self) -> bool {
        &&& !self.keys().contains(handle.bits())
        &&& after.keys() == self.keys().push(handle.bits())
        &&& after.sources() == self.sources().push(source)
        &&& after.coefficient() == self.coefficient()
    }

    /// The mixer `after` is `self` without the source that `handle` is the
    /// key of, the last source in its place; or `self`, if it holds no
    /// such source.
    pub open spec fn removes(&self, handle: BasicMixerSource, after: &Self) -> bool {
        &&& after.coefficient() == self.coefficient()
        &&& if self.keys().contains(handle.bits()) {
            let i = self.keys().index_of(handle.bits());
            &&& after.keys() == swap_removed(self.keys(), i)
            &&& after.sources() == swap_removed(self.sources(), i)
        } else {
            &&& after.keys() == self.keys()
            &&& after.sources() == self.sources()
        }
    }

    /// Construct a `BasicMixer` that simply adds samples and doesn't
    /// multiply by anything.
    pub fn new() -> (mixer: Self)
        ensures
            mixer.valid(),
            mixer.sources().len() == 0,
            mixer.keys().len() == 0,
            mixer.coefficient() is None,
    {
        let mixer = BasicMixer {
            buffer: Vec::new(),
            coefficient: None,
            slots: new_slots(),
            keys: Vec::new(),
            sources: Vec::new(),
        };
        assert(mixer.keys@.to_set() =~= Set::<u64>::empty());
        mixer
    }

    /// Construct a `BasicMixer` that adds samples together, then
    /// multiplies by the given coefficient to reduce the chance of
    /// clipping.
    ///
    /// # Arguments
    ///
    /// * `coefficient` -- A number to multiply the final resulting samples by.
    pub fn with_coefficient(coefficient: T) -> (mixer: Self)
        ensures
            mixer.valid(),
            mixer.sources().len() == 0,
            mixer.keys().len() == 0,
            mixer.coefficient() == Some(coefficient),
    {
        let mixer = BasicMixer {
            buffer: Vec::new(),
            coefficient: Some(coefficient),
            slots: new_slots(),
            keys: Vec::new(),
            sources: Vec::new(),
        };
        assert(mixer.keys@.to_set() =~= Set::<u64>::empty());
        mixer
    }

    /// The number of sources in the mixer.
    pub fn len(&self) -> (count: usize)
        ensures
            count == self.sources().len(),
    {
        self.sources.len()
    }

    /// Whether the mixer has no source.
    pub fn is_empty(&self) -> (empty: bool)
        ensures
            empty == (self.sources().len() == 0),
    {
        self.sources.len() == 0
    }

    /// Add a source to this mixer.
    ///
    /// The first source may have any format, or none. Every further one
    /// has the format of the mixer.
    ///
    /// # Arguments
    ///
    /// * `source` -- The audio source to add to this mixer.
    ///
    /// # Returns
    ///
    /// A key to be used in [`remove_source`](Self::remove_source) to
    /// remove this source.
    pub fn add_source(&mut self, source: S) -> (handle: BasicMixerSource)
        requires
            old(self).valid(),
            source.valid(),
            old(self).sources().len() < MAX_KEYS,
            old(self).sources().len() > 0 ==> source.spec_format() is Some && source.spec_format()
                == old(self).spec_format(),
        ensures
            final(self).valid(),
            old(self).adds(source, handle, final(self)),
    {
        proof {
            self.keys@.unique_seq_to_set();
            vstd::seq_lib::seq_to_set_is_finite(self.keys@);
        }
        let key = insert_slot(&mut self.slots);
        let bits = bits_of(key);
        self.keys.push(bits);
        self.sources.push(source);
        proof {
            old(self).keys@.lemma_push_to_set_commute(bits);
            assert(self.keys@.to_set() =~= old(self).keys@.to_set().insert(bits));
        }
        BasicMixerSource { key }
    }

    /// Removes the source indicated by `source`, if present.
    pub fn remove_source(&mut self, source: BasicMixerSource)
        requires
            old(self).valid(),
        ensures
            final(self).valid(),
            old(self).removes(source, final(self)),
    {
        let removed = remove_slot(&mut self.slots, source.key);
        if removed.is_some() {
            let bits = bits_of(source.key);
            let mut i: usize = 0;
            while self.keys[i] != bits
                invariant
                    self.keys@ == old(self).keys@,
                    self.keys@.contains(bits),
                    i < self.keys.len(),
                    forall|j: int| 0 <= j < i ==> self.keys@[j] != bits,
                decreases self.keys.len() - i,
            {
                i += 1;
            }
            let ghost at = old(self).keys@.index_of(bits);
            assert(at == i);
            self.keys.swap_remove(i);
            let _ = self.sources.swap_remove(i);
            proof {
                let before = old(self).keys@;
                let now = self.keys@;
                assert forall|a: int, b: int| 0 <= a < now.len() && 0 <= b < now.len() && a
                    != b implies now[a] != now[b] by {
                    let pa = if a == i { before.len() - 1 } else { a };
                    let pb = if b == i { before.len() - 1 } else { b };
                    assert(now[a] == before[pa] && now[b] == before[pb]);
                }
                assert forall|b: u64| now.to_set().contains(b) <==> before.to_set().remove(
                    bits,
                ).contains(b) by {
                    if now.contains(b) {
                        let a = choose|a: int| 0 <= a < now.len() && now[a] == b;
                        let pa = if a == i { before.len() - 1 } else { a };
                        assert(before[pa] == b);
                    }
                    if before.contains(b) && b != bits {
                        let p = choose|p: int| 0 <= p < before.len() && before[p] == b;
                        if p == before.len() - 1 {
                            assert(now[i as int] == b);
                        } else {
                            assert(now[p] == b);
                        }
                    }
                }
                assert(now.to_set() =~= before.to_set().remove(bits));
                let held = old(self).sources@;
                assert forall|j: int| 0 <= j < self.sources@.len() implies (
                #[trigger] self.sources@[j]).valid() && self.sources@[j].spec_format()
                    == self.sources@[0].spec_format() by {
                    let pj = if j == i { held.len() - 1 } else { j };
                    let p0 = if 0 == i { held.len() - 1 } else { 0 };
                    assert(self.sources@[j] == held[pj]);
                    assert(self.sources@[0] == held[p0]);
                }
            }
        } else {
            assert(live_keys(self.slots) =~= live_keys(old(self).slots));
        }
    }

    /// One read of a mixer with sources, from `self` to `after`.
    ///
    /// Source `j` is handed a buffer that holds `handed[j]`, the first one
    /// the caller's; it leaves `outputs[j]` there and returns
    /// `results[j]`. `parts[j]` is that output with silence behind what
    /// was read, and `totals[j]` the sum of the parts up to `j`.
    pub open spec fn mixes(
        &self,
        after: &Self,
        before: Seq<T>,
        handed: Seq<Seq<T>>,
        outputs: Seq<Seq<T>>,
        results: Seq<ReadResult>,
        parts: Seq<Seq<T>>,
        totals: Seq<Seq<T>>,
        filled: Seq<T>,
        result: ReadResult,
    ) -> bool {
        let count = self.sources().len() as int;
        let len = before.len() as int;
        &&& count > 0
        &&& handed.len() == count
        &&& outputs.len() == count
        &&& results.len() == count
        &&& parts.len() == count
        &&& totals.len() == count
        &&& handed[0] == before
        &&& forall|j: int| 0 <= j < count ==> (#[trigger] handed[j]).len() == len
        &&& forall|j: int| 0 <= j < count ==> (#[trigger] results[j]).fits(len)
        &&& forall|j: int|
            0 <= j < count ==> self.sources()[j].pulls(
                &after.sources()[j],
                handed[j],
                outputs[j],
                #[trigger] results[j],
            )
        &&& forall|j: int|
            0 <= j < count ==> silenced_after(outputs[j], results[j].read as int, #[trigger] parts[j])
        &&& totals[0] == parts[0]
        &&& forall|j: int|
            1 <= j < count ==> accumulated(totals[j - 1], parts[j], #[trigger] totals[j])
        &&& match self.coefficient() {
            None => filled == totals[count - 1],
            Some(gain) => scaled(totals[count - 1], gain, filled),
        }
        &&& result == mix_result(longest(results), len)
    }

    /// Whether every source is in order and all have one format, and the
    /// keys are those that the slot map holds, each once.
    pub closed spec fn well_formed(&self) -> bool {
        &&& self.keys@.len() == self.sources@.len()
        &&& self.keys@.no_duplicates()
        &&& live_keys(self.slots) == self.keys@.to_set()
        &&& forall|j: int| 0 <= j < self.sources@.len() ==> (#[trigger] self.sources@[j]).valid()
        &&& forall|j: int|
            0 <= j < self.sources@.len() ==> (#[trigger] self.sources@[j]).spec_format()
                == self.sources@[0].spec_format()
    }
}

impl<T: Sample, S: AudioSource<T>> Default for BasicMixer<T, S> {
    /// A mixer without sources and without a coefficient.
    fn default() -> (mixer: Self)
        ensures
            mixer.valid(),
            mixer.sources().len() == 0,
            mixer.keys().len() == 0,
            mixer.coefficient() is None,
    {
        BasicMixer::new()
    }
}

impl<T: Sample, S: AudioSource<T>> AudioSource<T> for BasicMixer<T, S> {
    open spec fn valid(&self) -> bool {
        self.well_formed()
    }

    /// The format of the first source. A mixer without sources has none.
    open spec fn spec_format(&self) -> Option<AudioFormat> {
        if self.sources().len() == 0 {
            None
        } else {
            self.sources()[0].spec_format()
        }
    }

    /// Without sources, the buffer is filled with silence and the mixer
    /// reports `Good`. Otherwise every source is read once, in order, the
    /// first into the buffer, the others into a scratch buffer of the same
    /// length; what a source left undefined counts as silence; the buffer
    /// holds the sum, times the coefficient if there is one; and the
    /// longest read decides the result.
    open spec fn pulls(
        &self,
        after: &Self,
        before: Seq<T>,
        filled: Seq<T>,
        result: ReadResult,
    ) -> bool {
        &&& after.coefficient() == self.coefficient()
        &&& after.keys() == self.keys()
        &&& after.sources().len() == self.sources().len()
        &&& if self.sources().len() == 0 {
            &&& silenced_after(before, 0, filled)
            &&& result == ReadResult { state: StreamState::Good, read: before.len() as usize }
        } else {
            exists|
                handed: Seq<Seq<T>>,
                outputs: Seq<Seq<T>>,
                results: Seq<ReadResult>,
                parts: Seq<Seq<T>>,
                totals: Seq<Seq<T>>,
            | #[trigger]
                self.mixes(after, before, handed, outputs, results, parts, totals, filled, result)
        }
    }

    fn format(&self) -> (f: AudioFormat) {
        self.sources[0].format()
    }

    fn read(&mut self, buffer: &mut [T]) -> (result: ReadResult) {
        let len = buffer.len();
        let count = self.sources.len();
        if count == 0 {
            silence_tail(buffer, 0);
            return ReadResult::good(len);
        }
        let first = self.sources[0].read(buffer);
        let ghost first_output = buffer@;
        silence_tail(buffer, first.read);
        let mut read = first.read;
        let ghost mut handed = seq![old(buffer)@];
        let ghost mut outputs = seq![first_output];
        let ghost mut results = seq![first];
        let ghost mut parts = seq![buffer@];
        let ghost mut totals = seq![buffer@];
        proof {
            assert(results.drop_last() =~= Seq::<ReadResult>::empty());
            assert(longest(results) == first.read) by {
                reveal_with_fuel(longest, 2);
            }
        }
        fit(&mut self.buffer, len);
        let mut j: usize = 1;
        while j < count
            invariant
                1 <= j <= count,
                count == self.sources.len(),
                count == old(self).sources@.len(),
                len == buffer.len(),
                len == old(buffer)@.len(),
                len == self.buffer.len(),
                self.coefficient == old(self).coefficient,
                self.keys@ == old(self).keys@,
                self.slots == old(self).slots,
                old(self).well_formed(),
                old(self).spec_format() matches Some(f) ==> f.whole_frames(len as int),
                old(self).spec_format() matches Some(f) ==> f.whole_frames(read as int),
                read <= len,
                read == longest(results),
                handed.len() == j,
                outputs.len() == j,
                results.len() == j,
                parts.len() == j,
                totals.len() == j,
                handed[0] == old(buffer)@,
                totals[0] == parts[0],
                totals[j - 1] == buffer@,
                forall|k: int| 0 <= k < j ==> (#[trigger] handed[k]).len() == len,
                forall|k: int| 0 <= k < j ==> (#[trigger] results[k]).fits(len as int),
                forall|k: int| 0 <= k < j ==> (#[trigger] totals[k]).len() == len,
                forall|k: int|
                    0 <= k < j ==> old(self).sources@[k].pulls(
                        &self.sources@[k],
                        handed[k],
                        outputs[k],
                        #[trigger] results[k],
                    ),
                forall|k: int|
                    0 <= k < j ==> silenced_after(
                        outputs[k],
                        results[k].read as int,
                        #[trigger] parts[k],
                    ),
                forall|k: int|
                    1 <= k < j ==> accumulated(totals[k - 1], parts[k], #[trigger] totals[k]),
                forall|k: int| j <= k < count ==> #[trigger] self.sources@[k] == old(self).sources@[k],
                forall|k: int| 0 <= k < count ==> (#[trigger] self.sources@[k]).valid(),
                forall|k: int|
                    0 <= k < count ==> (#[trigger] self.sources@[k]).spec_format() == old(
                        self,
                    ).sources@[k].spec_format(),
            decreases count - j,
        {
            let ghost given = self.buffer@;
            let ghost held = self.sources@;
            let next = self.sources[j].read(self.buffer.as_mut_slice());
            let ghost output = self.buffer@;
            silence_tail(self.buffer.as_mut_slice(), next.read);
            if next.read > read {
                read = next.read;
            }
            accumulate(buffer, self.buffer.as_slice());
            proof {
                let ghost earlier = results;
                handed = handed.push(given);
                outputs = outputs.push(output);
                results = results.push(next);
                parts = parts.push(self.buffer@);
                totals = totals.push(buffer@);
                assert(results.drop_last() =~= earlier);
                assert forall|k: int| 0 <= k < j + 1 implies old(self).sources@[k].pulls(
                    &self.sources@[k],
                    handed[k],
                    outputs[k],
                    #[trigger] results[k],
                ) by {
                    if k < j {
                        assert(self.sources@[k] == held[k]);
                    }
                }
            }
            j += 1;
        }
        let ghost mixed = buffer@;
        if let Some(gain) = self.coefficient {
            scale(buffer, gain);
        }
        let result = result_of(read, len);
        proof {
            assert(old(self).mixes(
                self,
                old(buffer)@,
                handed,
                outputs,
                results,
                parts,
                totals,
                buffer@,
                result,
            ));
        }
        result
    }
}

/// The longest read is one of the reads, and none is longer.
pub proof fn lemma_longest_is_the_maximum(results: Seq<ReadResult>)
    ensures
        forall|j: int| 0 <= j < results.len() ==> (#[trigger] results[j]).read <= longest(results),
        results.len() > 0 ==> exists|j: int|
            0 <= j < results.len() && (#[trigger] results[j]).read == longest(results),
        results.len() == 0 ==> longest(results) == 0,
    decreases results.len(),
{
    if results.len() > 0 {
        let rest = results.drop_last();
        lemma_longest_is_the_maximum(rest);
        assert forall|j: int| 0 <= j < results.len() implies (#[trigger] results[j]).read
            <= longest(results) by {
            if j < rest.len() {
                assert(rest[j] == results[j]);
            }
        }
        if results.last().read > longest(rest) || rest.len() == 0 {
            assert(results[results.len() - 1].read == longest(results));
        } else {
            let j = choose|j: int| 0 <= j < rest.len() && (#[trigger] rest[j]).read == longest(rest);
            assert(results[j] == rest[j]);
        }
    }
}

impl<T: Sample, S: AudioSource<T>> BasicMixer<T, S> {
    /// A mixer never says that it has finished, and it reports `Good`
    /// exactly where it reports the whole buffer.
    pub proof fn lemma_good_or_underrun(
        &self,
        after: &Self,
        before: Seq<T>,
        filled: Seq<T>,
        result: ReadResult,
    )
        requires
            before.len() <= usize::MAX,
            self.pulls(after, before, filled, result),
        ensures
            result.state != StreamState::Finished,
            result.state == StreamState::Good <==> result.read == before.len(),
            result.read <= before.len(),
    {
        if self.sources().len() > 0 {
            let (handed, outputs, results, parts, totals) = choose|
                handed: Seq<Seq<T>>,
                outputs: Seq<Seq<T>>,
                results: Seq<ReadResult>,
                parts: Seq<Seq<T>>,
                totals: Seq<Seq<T>>,
            | #[trigger]
                self.mixes(after, before, handed, outputs, results, parts, totals, filled, result);
            lemma_longest_is_the_maximum(results);
        }
    }

    /// A mixer without sources fills the buffer with silence and reports
    /// `Good`, and stays as it is.
    pub proof fn lemma_no_source_is_silence(
        &self,
        after: &Self,
        before: Seq<T>,
        filled: Seq<T>,
        result: ReadResult,
    )
        requires
            self.sources().len() == 0,
            self.pulls(after, before, filled, result),
        ensures
            filled.len() == before.len(),
            forall|i: int| 0 <= i < filled.len() ==> silent(#[trigger] filled[i]),
            result == (ReadResult { state: StreamState::Good, read: before.len() as usize }),
            after.sources() == self.sources(),
    {
        assert(after.sources() =~= self.sources());
    }

    /// With one source, the reported count is that of the source, and the
    /// output is the output of the source, with silence behind what it
    /// read, times the coefficient if there is one.
    pub proof fn lemma_one_source_passes_through(
        &self,
        after: &Self,
        before: Seq<T>,
        filled: Seq<T>,
        result: ReadResult,
    )
        requires
            self.sources().len() == 1,
            self.pulls(after, before, filled, result),
        ensures
            exists|output: Seq<T>, part: Seq<T>, inner: ReadResult|
                {
                    &&& #[trigger] self.sources()[0].pulls(
                        &after.sources()[0],
                        before,
                        output,
                        inner,
                    )
                    &&& result.read == inner.read
                    &&& #[trigger] silenced_after(output, inner.read as int, part)
                    &&& match self.coefficient() {
                        None => filled == part,
                        Some(gain) => scaled(part, gain, filled),
                    }
                },
    {
        let (handed, outputs, results, parts, totals) = choose|
            handed: Seq<Seq<T>>,
            outputs: Seq<Seq<T>>,
            results: Seq<ReadResult>,
            parts: Seq<Seq<T>>,
            totals: Seq<Seq<T>>,
        | #[trigger]
            self.mixes(after, before, handed, outputs, results, parts, totals, filled, result);
        assert(results.drop_last() =~= Seq::<ReadResult>::empty());
        assert(longest(results) == results[0].read) by {
            reveal_with_fuel(longest, 2);
        }
        assert(results[0].fits(before.len() as int));
        assert(self.sources()[0].pulls(&after.sources()[0], before, outputs[0], results[0]));
        assert(silenced_after(outputs[0], results[0].read as int, parts[0]));
    }

    /// The reported count is the longest count of any source: where one
    /// source fills the buffer, the mixer reports `Good` with the whole
    /// buffer, whatever the others gave.
    pub proof fn lemma_one_good_source_is_enough(
        &self,
        after: &Self,
        before: Seq<T>,
        handed: Seq<Seq<T>>,
        outputs: Seq<Seq<T>>,
        results: Seq<ReadResult>,
        parts: Seq<Seq<T>>,
        totals: Seq<Seq<T>>,
        filled: Seq<T>,
        result: ReadResult,
        full: int,
    )
        requires
            before.len() <= usize::MAX,
            self.mixes(after, before, handed, outputs, results, parts, totals, filled, result),
            0 <= full < results.len(),
            results[full].state == StreamState::Good,
        ensures
            result.read == longest(results),
            result == (ReadResult { state: StreamState::Good, read: before.len() as usize }),
    {
        lemma_longest_is_the_maximum(results);
        assert(results[full].fits(before.len() as int));
    }

    /// Adding a source and then removing it by the handle that was
    /// returned gives a mixer with the sources, the keys and the
    /// coefficient of the first, which therefore reads as the first does.
    pub proof fn lemma_add_then_remove(
        &self,
        source: S,
        handle: BasicMixerSource,
        added: &Self,
        removed: &Self,
    )
        requires
            self.valid(),
            self.adds(source, handle, added),
            added.removes(handle, removed),
        ensures
            removed.sources() == self.sources(),
            removed.keys() == self.keys(),
            removed.coefficient() == self.coefficient(),
            removed.spec_format() == self.spec_format(),
            forall|after: &Self, before: Seq<T>, filled: Seq<T>, result: ReadResult|
                removed.pulls(after, before, filled, result) == self.pulls(
                    after,
                    before,
                    filled,
                    result,
                ),
    {
        let bits = handle.bits();
        let keys = added.keys();
        let last = self.keys().len() as int;
        assert(keys[last] == bits);
        assert(keys.contains(bits));
        let at = keys.index_of(bits);
        assert(at == last) by {
            if at < last {
                assert(self.keys()[at] == bits);
            }
        }
        assert(removed.keys() =~= self.keys());
        assert(removed.sources() =~= self.sources());
        assert forall|after: &Self, before: Seq<T>, filled: Seq<T>, result: ReadResult|
            removed.pulls(after, before, filled, result) == self.pulls(
                after,
                before,
                filled,
                result,
            ) by {
            if self.pulls(after, before, filled, result) {
                self.lemma_reads_by_its_parts(removed, after, before, filled, result);
            }
            if removed.pulls(after, before, filled, result) {
                removed.lemma_reads_by_its_parts(self, after, before, filled, result);
            }
        }
    }

    /// How a mixer reads depends on its sources, its keys and its
    /// coefficient alone.
    pub proof fn lemma_reads_by_its_parts(
        &self,
        other: &Self,
        after: &Self,
        before: Seq<T>,
        filled: Seq<T>,
        result: ReadResult,
    )
        requires
            self.sources() == other.sources(),
            self.keys() == other.keys(),
            self.coefficient() == other.coefficient(),
            self.pulls(after, before, filled, result),
        ensures
            other.pulls(after, before, filled, result),
    {
        if self.sources().len() > 0 {
            let (handed, outputs, results, parts, totals) = choose|
                handed: Seq<Seq<T>>,
                outputs: Seq<Seq<T>>,
                results: Seq<ReadResult>,
                parts: Seq<Seq<T>>,
                totals: Seq<Seq<T>>,
            | #[trigger]
                self.mixes(after, before, handed, outputs, results, parts, totals, filled, result);
            assert(other.mixes(
                after,
                before,
                handed,
                outputs,
                results,
                parts,
                totals,
                filled,
                result,
            ));
        }
    }
}

} // verus!
