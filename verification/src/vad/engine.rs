//! Around the speech model: which model inputs and outputs are which, what a frame is fed
//! with, and how the model's answer is read.
//!
//! The model takes 16 kHz frames of 512 samples behind 64 samples of context, and carries a
//! state of 256 values from frame to frame.

use vstd::prelude::*;

use crate::level::Level;
use crate::text::{contains, decimal, has, join, join3, quote, quoted, same, to_decimal};
use crate::vad::error::{Failure, VadError};
use crate::vad::framing::{append, copy_range};

verus! {

/// Sample rate of the model.
pub const MODEL_SAMPLE_RATE: u32 = 16_000;

/// Samples in one frame of the model.
pub const MODEL_FRAME_SIZE: usize = 512;

/// Samples of context in front of a frame.
pub const MODEL_CONTEXT_SIZE: usize = 64;

/// Samples that go into the model at a time.
pub const MODEL_INPUT_LEN: usize = 576;

/// Values in the model state.
pub const STATE_LEN: usize = 256;

// ---------------------------------------------------------------------------
// Names of inputs and outputs
// ---------------------------------------------------------------------------

/// The names as character sequences.
pub open spec fn names(v: Seq<String>) -> Seq<Seq<char>> {
    v.map_values(|s: String| s@)
}

/// The answer for an input under a name that is none of the model's, the name quoted.
pub fn unexpected_input(shown: &str) -> (res: VadError)
    ensures
        res@ == Failure::ModelLoad("unexpected model input "@ + shown@),
{
    VadError::ModelLoad(join("unexpected model input ", shown))
}

/// The answer for an output under a name that is none of the model's, the name quoted.
pub fn unexpected_output(shown: &str) -> (res: VadError)
    ensures
        res@ == Failure::ModelLoad("unexpected model output "@ + shown@),
{
    VadError::ModelLoad(join("unexpected model output ", shown))
}

/// The answer for an output name that occurs twice, the name quoted.
pub fn duplicate_output(shown: &str) -> (res: VadError)
    ensures
        res@ == Failure::ModelLoad("duplicate model output name "@ + shown@),
{
    VadError::ModelLoad(join("duplicate model output name ", shown))
}

/// Where `input` and `state` stand among the inputs of the model.
pub open spec fn inputs_located(v: Seq<Seq<char>>) -> Result<(int, int), Failure> {
    if v.len() != 2 {
        Err(
            Failure::ModelLoad(
                "expected 2 inputs (input, state), got "@ + decimal(v.len()),
            ),
        )
    } else if v[0] != "input"@ && v[0] != "state"@ {
        Err(Failure::ModelLoad("unexpected model input "@ + quoted(v[0])))
    } else if v[1] != "input"@ && v[1] != "state"@ {
        Err(Failure::ModelLoad("unexpected model input "@ + quoted(v[1])))
    } else if v[0] == "input"@ && v[1] == "state"@ {
        Ok((0, 1))
    } else if v[0] == "state"@ && v[1] == "input"@ {
        Ok((1, 0))
    } else {
        Err(Failure::ModelLoad("model inputs must be named 'input' and 'state'"@))
    }
}

/// Finds `input` and `state` among the inputs of the model.
pub fn locate_silero_inputs(inputs: &Vec<String>) -> (res: Result<(usize, usize), VadError>)
    ensures
        match (inputs_located(names(inputs@)), res) {
            (Ok(w), Ok(g)) => g.0 == w.0 && g.1 == w.1,
            (Err(w), Err(g)) => g@ == w,
            _ => false,
        },
{
    proof {
        reveal_strlit("input");
        reveal_strlit("state");
        assert("input"@[0] != "state"@[0]);
    }
    if inputs.len() != 2 {
        return Err(
            VadError::ModelLoad(
                join(
                    "expected 2 inputs (input, state), got ",
                    to_decimal(inputs.len() as u64).as_str(),
                ),
            ),
        );
    }
    let mut input_ix: Option<usize> = None;
    let mut state_ix: Option<usize> = None;
    let mut ix: usize = 0;
    while ix < 2
        invariant
            inputs@.len() == 2,
            ix <= 2,
            "input"@ != "state"@,
            forall|k: int|
                0 <= k < ix ==> (#[trigger] inputs@[k])@ == "input"@ || inputs@[k]@ == "state"@,
            match input_ix {
                Some(i) => i < ix && inputs@[i as int]@ == "input"@,
                None => forall|k: int| 0 <= k < ix ==> (#[trigger] inputs@[k])@ != "input"@,
            },
            match state_ix {
                Some(i) => i < ix && inputs@[i as int]@ == "state"@,
                None => forall|k: int| 0 <= k < ix ==> (#[trigger] inputs@[k])@ != "state"@,
            },
        decreases 2 - ix,
    {
        let name: &str = inputs[ix].as_str();
        if same(name, "input") {
            input_ix = Some(ix);
        } else if same(name, "state") {
            state_ix = Some(ix);
        } else {
            assert(names(inputs@)[0] == inputs@[0]@);
            assert(names(inputs@)[1] == inputs@[1]@);
            return Err(unexpected_input(quote(name).as_str()));
        }
        ix = ix + 1;
    }
    assert(names(inputs@)[0] == inputs@[0]@);
    assert(names(inputs@)[1] == inputs@[1]@);
    match (input_ix, state_ix) {
        (Some(i), Some(s)) => Ok((i, s)),
        _ => Err(
            VadError::ModelLoad("model inputs must be named 'input' and 'state'".to_owned()),
        ),
    }
}

/// The answer for the first output in order that is at fault, if there is one.
pub open spec fn output_fault(v: Seq<Option<Seq<char>>>, ix: int, earlier: Seq<Seq<char>>) -> Option<
    Failure,
> {
    match v[ix] {
        None => Some(
            Failure::ModelLoad(
                "model output "@ + decimal(ix as nat) + " has no ONNX output name"@,
            ),
        ),
        Some(name) => if name != "output"@ && name != "stateN"@ {
            Some(Failure::ModelLoad("unexpected model output "@ + quoted(name)))
        } else if earlier.contains(name) {
            Some(Failure::ModelLoad("duplicate model output name "@ + quoted(name)))
        } else {
            None
        },
    }
}

/// Where `output` and `stateN` stand among the outputs of the model.
pub open spec fn outputs_located(v: Seq<Option<Seq<char>>>) -> Result<(int, int), Failure> {
    if v.len() != 2 {
        Err(
            Failure::ModelLoad(
                "expected 2 outputs (output, stateN), got "@ + decimal(v.len()),
            ),
        )
    } else if let Some(f) = output_fault(v, 0, Seq::empty()) {
        Err(f)
    } else if let Some(f) = output_fault(v, 1, seq![v[0]->0]) {
        Err(f)
    } else if v[0]->0 == "output"@ {
        Ok((0, 1))
    } else {
        Ok((1, 0))
    }
}

/// The output names as character sequences.
pub open spec fn labels(v: Seq<Option<String>>) -> Seq<Option<Seq<char>>> {
    v.map_values(|s: Option<String>| crate::text::opt(s))
}

/// The index of an output, or the answer for it, given which of the two names came before.
fn classify_output(ix: usize, label: &Option<String>, seen_output: bool, seen_state: bool) -> (res:
    Result<bool, VadError>)
    ensures
        match (*label, res) {
            (None, Err(e)) => e@ == Failure::ModelLoad(
                "model output "@ + decimal(ix as nat) + " has no ONNX output name"@,
            ),
            (Some(n), Ok(is_output)) => {
                ||| is_output && n@ == "output"@ && !seen_output
                ||| !is_output && n@ == "stateN"@ && !seen_state
            },
            (Some(n), Err(e)) => if n@ != "output"@ && n@ != "stateN"@ {
                e@ == Failure::ModelLoad("unexpected model output "@ + quoted(n@))
            } else {
                &&& e@ == Failure::ModelLoad("duplicate model output name "@ + quoted(n@))
                &&& n@ == "output"@ ==> seen_output
                &&& n@ == "stateN"@ ==> seen_state
            },
            _ => false,
        },
{
    match label {
        None => Err(
            VadError::ModelLoad(
                join3(
                    "model output ",
                    to_decimal(ix as u64).as_str(),
                    " has no ONNX output name",
                ),
            ),
        ),
        Some(n) => {
            let name: &str = n.as_str();
            proof {
                reveal_strlit("output");
                reveal_strlit("stateN");
                assert("output"@[0] != "stateN"@[0]);
            }
            if same(name, "output") {
                if seen_output {
                    Err(duplicate_output(quote(name).as_str()))
                } else {
                    Ok(true)
                }
            } else if same(name, "stateN") {
                if seen_state {
                    Err(duplicate_output(quote(name).as_str()))
                } else {
                    Ok(false)
                }
            } else {
                Err(unexpected_output(quote(name).as_str()))
            }
        },
    }
}

/// Finds `output` and `stateN` among the outputs of the model.
pub fn locate_silero_outputs(outputs: &Vec<Option<String>>) -> (res: Result<
    (usize, usize),
    VadError,
>)
    ensures
        match (outputs_located(labels(outputs@)), res) {
            (Ok(w), Ok(g)) => g.0 == w.0 && g.1 == w.1,
            (Err(w), Err(g)) => g@ == w,
            _ => false,
        },
{
    if outputs.len() != 2 {
        return Err(
            VadError::ModelLoad(
                join(
                    "expected 2 outputs (output, stateN), got ",
                    to_decimal(outputs.len() as u64).as_str(),
                ),
            ),
        );
    }
    proof {
        reveal_strlit("output");
        reveal_strlit("stateN");
        assert("output"@[0] != "stateN"@[0]);
        assert(labels(outputs@)[0] == crate::text::opt(outputs@[0]));
        assert(labels(outputs@)[1] == crate::text::opt(outputs@[1]));
        let first = labels(outputs@)[0]->0;
        assert(seq![first].contains(first)) by {
            assert(seq![first][0] == first);
        }
    }
    match classify_output(0, &outputs[0], false, false) {
        Err(e) => Err(e),
        Ok(first_is_output) => match classify_output(
            1,
            &outputs[1],
            first_is_output,
            !first_is_output,
        ) {
            Err(e) => Err(e),
            Ok(_) => if first_is_output {
                Ok((0, 1))
            } else {
                Ok((1, 0))
            },
        },
    }
}

// ---------------------------------------------------------------------------
// Node names
// ---------------------------------------------------------------------------

/// The length of the longest name.
pub open spec fn longest(v: Seq<Seq<char>>) -> nat
    decreases v.len(),
{
    if v.len() == 0 {
        0
    } else if v.last().len() > longest(v.drop_last()) {
        v.last().len()
    } else {
        longest(v.drop_last())
    }
}

proof fn lemma_longest(v: Seq<Seq<char>>, name: Seq<char>)
    requires
        v.contains(name),
    ensures
        name.len() <= longest(v),
    decreases v.len(),
{
    let k = choose|k: int| 0 <= k < v.len() && v[k] == name;
    if k < v.len() - 1 {
        assert(v.drop_last()[k] == name);
        lemma_longest(v.drop_last(), name);
    }
}

/// How far a name is from being longer than all of the others.
pub open spec fn short_of(v: Seq<Seq<char>>, name: Seq<char>) -> nat {
    if name.len() > longest(v) {
        0
    } else {
        (longest(v) + 1 - name.len()) as nat
    }
}

/// What a name at a position is marked with: `#` and the position.
pub open spec fn mark(i: nat) -> Seq<char> {
    "#"@ + decimal(i)
}

/// A name marked as often as it takes to be none of the others.
pub open spec fn unused(seen: Seq<Seq<char>>, name: Seq<char>, i: nat) -> Seq<char>
    decreases short_of(seen, name),
    via unused_ends
{
    if seen.contains(name) {
        unused(seen, name + mark(i), i)
    } else {
        name
    }
}

#[via_fn]
proof fn unused_ends(seen: Seq<Seq<char>>, name: Seq<char>, i: nat) {
    if seen.contains(name) {
        lemma_longest(seen, name);
        reveal_strlit("#");
    }
}

/// Node names, every repetition marked with its position until it is new.
pub open spec fn renamed(v: Seq<Seq<char>>) -> Seq<Seq<char>>
    decreases v.len(),
{
    if v.len() == 0 {
        Seq::empty()
    } else {
        let before = renamed(v.drop_last());
        before.push(unused(before, v.last(), (v.len() - 1) as nat))
    }
}

fn listed(v: &Vec<String>, name: &str) -> (res: bool)
    ensures
        res == names(v@).contains(name@),
{
    let mut i: usize = 0;
    while i < v.len()
        invariant
            i <= v@.len(),
            forall|k: int| 0 <= k < i ==> (#[trigger] v@[k])@ != name@,
        decreases v@.len() - i,
    {
        if same(v[i].as_str(), name) {
            assert(names(v@)[i as int] == name@);
            return true;
        }
        i = i + 1;
    }
    proof {
        if names(v@).contains(name@) {
            let k = choose|k: int| 0 <= k < names(v@).len() && names(v@)[k] == name@;
            assert(v@[k]@ == name@);
        }
    }
    false
}

fn make_unused(seen: &Vec<String>, name: &str, ix: usize) -> (res: String)
    ensures
        res@ == unused(names(seen@), name@, ix as nat),
{
    let number: String = to_decimal(ix as u64);
    let mut res: String = name.to_owned();
    while listed(seen, res.as_str())
        invariant
            number@ == decimal(ix as nat),
            unused(names(seen@), res@, ix as nat) == unused(names(seen@), name@, ix as nat),
        decreases short_of(names(seen@), res@),
    {
        let ghost before = res@;
        res.append("#");
        res.append(number.as_str());
        proof {
            assert(res@ =~= before + mark(ix as nat));
            lemma_longest(names(seen@), before);
            reveal_strlit("#");
        }
    }
    res
}

/// Gives every node a name of its own: one whose name came up before is marked with its
/// position, `name#index`, until it is new.
pub fn uniquify_names(nodes: &Vec<String>) -> (res: Vec<String>)
    ensures
        names(res@) == renamed(names(nodes@)),
        names(res@).no_duplicates(),
{
    let mut out: Vec<String> = Vec::new();
    let mut ix: usize = 0;
    while ix < nodes.len()
        invariant
            ix <= nodes@.len(),
            names(out@) == renamed(names(nodes@).take(ix as int)),
        decreases nodes@.len() - ix,
    {
        let new_name: String = make_unused(&out, nodes[ix].as_str(), ix);
        proof {
            let v = names(nodes@).take(ix + 1);
            assert(v.drop_last() =~= names(nodes@).take(ix as int));
            assert(v.last() == nodes@[ix as int]@);
            assert(names(out@.push(new_name)) =~= names(out@).push(new_name@));
        }
        out.push(new_name);
        ix = ix + 1;
    }
    proof {
        assert(names(nodes@).take(nodes@.len() as int) =~= names(nodes@));
        lemma_names_are_distinct(names(nodes@));
    }
    out
}

proof fn lemma_unused_is_new(seen: Seq<Seq<char>>, name: Seq<char>, i: nat)
    ensures
        !seen.contains(unused(seen, name, i)),
    decreases short_of(seen, name),
{
    if seen.contains(name) {
        lemma_longest(seen, name);
        reveal_strlit("#");
        lemma_unused_is_new(seen, name + mark(i), i);
    }
}

/// The nodes keep their number and order, and each gets its name, marked until it is new.
pub proof fn lemma_renamed(v: Seq<Seq<char>>)
    ensures
        renamed(v).len() == v.len(),
        forall|i: int|
            0 <= i < v.len() ==> #[trigger] renamed(v)[i] == unused(
                renamed(v.take(i)),
                v[i],
                i as nat,
            ),
    decreases v.len(),
{
    if v.len() > 0 {
        let less = v.drop_last();
        lemma_renamed(less);
        assert forall|i: int| 0 <= i < v.len() implies #[trigger] renamed(v)[i] == unused(
            renamed(v.take(i)),
            v[i],
            i as nat,
        ) by {
            assert(v.take(less.len() as int) =~= less);
            if i < less.len() {
                assert(less.take(i) =~= v.take(i));
                assert(renamed(v)[i] == renamed(less)[i]);
            }
        }
    }
}

/// No two nodes have the same name afterwards.
pub proof fn lemma_names_are_distinct(v: Seq<Seq<char>>)
    ensures
        renamed(v).no_duplicates(),
    decreases v.len(),
{
    if v.len() > 0 {
        let before = renamed(v.drop_last());
        let last = unused(before, v.last(), (v.len() - 1) as nat);
        lemma_names_are_distinct(v.drop_last());
        lemma_unused_is_new(before, v.last(), (v.len() - 1) as nat);
        assert forall|i: int, j: int|
            0 <= i < renamed(v).len() && 0 <= j < renamed(v).len() && i != j implies renamed(v)[i]
            != renamed(v)[j] by {
            if i == before.len() {
                assert(before[j] == renamed(v)[j]);
            } else if j == before.len() {
                assert(before[i] == renamed(v)[i]);
            }
        }
    }
}

/// Where no name holds a `#`, a repetition is marked once: it becomes `name#index`.
pub proof fn lemma_plain_names_are_marked_once(v: Seq<Seq<char>>)
    requires
        forall|i: int, k: int|
            0 <= i < v.len() && 0 <= k < v[i].len() ==> #[trigger] v[i][k] != '#',
    ensures
        renamed(v).len() == v.len(),
        forall|i: int|
            0 <= i < v.len() ==> #[trigger] renamed(v)[i] == if v.take(i).contains(v[i]) {
                v[i] + mark(i as nat)
            } else {
                v[i]
            },
    decreases v.len(),
{
    reveal_strlit("#");
    assert("#"@ =~= seq!['#']);
    if v.len() > 0 {
        let less = v.drop_last();
        let n = less.len() as int;
        let name = v.last();
        assert forall|i: int, k: int| 0 <= i < less.len() && 0 <= k < less[i].len() implies
            #[trigger] less[i][k] != '#' by {
            assert(v[i][k] != '#');
        }
        lemma_plain_names_are_marked_once(less);
        let before = renamed(less);
        assert(v.take(n) =~= less);
        // The name is among those that were given exactly where it is among those that were made.
        if before.contains(name) {
            let k = choose|k: int| 0 <= k < before.len() && before[k] == name;
            if less.take(k).contains(less[k]) {
                assert(name[less[k].len() as int] == '#');
                assert(v[n][less[k].len() as int] == '#');
            }
            assert(less[k] == name);
        }
        if less.contains(name) {
            let k = lemma_first_occurrence(less, name);
            assert(before[k] == name);
        }
        // What it is marked to is not among them.
        let made = name + mark(n as nat);
        assert(made[name.len() as int] == '#');
        if before.contains(made) {
            let k = choose|k: int| 0 <= k < before.len() && before[k] == made;
            assert(v[k] == less[k]);
            if less.take(k).contains(less[k]) {
                let other = less[k] + mark(k as nat);
                assert(other[less[k].len() as int] == '#');
                if less[k].len() < name.len() {
                    assert(made[less[k].len() as int] == v[n][less[k].len() as int]);
                }
                if name.len() < less[k].len() {
                    assert(other[name.len() as int] == v[k][name.len() as int]);
                }
                let width = name.len() + 1;
                assert(decimal(n as nat) =~= made.skip(width as int));
                assert(decimal(k as nat) =~= other.skip(width as int));
                crate::text::lemma_decimal(n as nat);
                crate::text::lemma_decimal(k as nat);
            } else {
                assert(v[k][name.len() as int] == '#');
            }
        }
        assert(unused(before, made, n as nat) == made);
        assert forall|i: int| 0 <= i < v.len() implies #[trigger] renamed(v)[i] == if v.take(
            i,
        ).contains(v[i]) {
            v[i] + mark(i as nat)
        } else {
            v[i]
        } by {
            if i < n {
                assert(less.take(i) =~= v.take(i));
                assert(renamed(v)[i] == before[i]);
            }
        }
    }
}

proof fn lemma_first_occurrence(v: Seq<Seq<char>>, name: Seq<char>) -> (k: int)
    requires
        v.contains(name),
    ensures
        0 <= k < v.len(),
        v[k] == name,
        !v.take(k).contains(name),
    decreases v.len(),
{
    let at = choose|at: int| 0 <= at < v.len() && v[at] == name;
    if v.take(at).contains(name) {
        let k = lemma_first_occurrence(v.take(at), name);
        assert(v.take(at).take(k) =~= v.take(k));
        k
    } else {
        at
    }
}

/// Whether an optimisation pass is taken as done: it succeeded, or all it found wrong was a
/// name that occurs twice.
pub fn accept_debug_duplicate_names(result: Result<(), String>) -> (res: Result<(), VadError>)
    ensures
        match result {
            Ok(_) => res is Ok,
            Err(m) => if contains(m@, "duplicate name"@) {
                res is Ok
            } else {
                res matches Err(e) && e@ == Failure::ModelLoad(m@)
            },
        },
{
    match result {
        Ok(_) => Ok(()),
        Err(m) => if has(m.as_str(), "duplicate name") {
            Ok(())
        } else {
            Err(VadError::ModelLoad(m))
        },
    }
}

// ---------------------------------------------------------------------------
// One frame
// ---------------------------------------------------------------------------

/// What goes into the model for one frame of a stream at `rate`.
///
/// At the rate of the model it is the frame. Otherwise the frame has been resampled, and the
/// result must be one frame of the model; `None` means that there is no resampler.
pub fn model_frame(
    rate: u32,
    frame: Vec<u32>,
    resampled: Option<Result<Vec<u32>, String>>,
) -> (res: Result<Vec<u32>, VadError>)
    ensures
        if rate == MODEL_SAMPLE_RATE {
            res matches Ok(f) && f@ == frame@
        } else {
            match resampled {
                None => res matches Err(e) && e@ == Failure::Inference(
                    "8 kHz resampler is unavailable"@,
                ),
                Some(Err(m)) => res matches Err(e) && e@ == Failure::Inference(m@),
                Some(Ok(up)) => if up@.len() == MODEL_FRAME_SIZE {
                    res matches Ok(f) && f@ == up@
                } else {
                    res matches Err(e) && e@ == Failure::Inference(
                        "8 kHz resampler produced "@ + decimal(up@.len())
                            + " samples (expected 512)"@,
                    )
                },
            }
        },
{
    if rate == MODEL_SAMPLE_RATE {
        return Ok(frame);
    }
    match resampled {
        None => Err(VadError::Inference("8 kHz resampler is unavailable".to_owned())),
        Some(Err(m)) => Err(VadError::Inference(m)),
        Some(Ok(up)) => if up.len() == MODEL_FRAME_SIZE {
            Ok(up)
        } else {
            Err(
                VadError::Inference(
                    join3(
                        "8 kHz resampler produced ",
                        to_decimal(up.len() as u64).as_str(),
                        " samples (expected 512)",
                    ),
                ),
            )
        },
    }
}

/// The answer where the inputs do not fill both places of the model, if they do not.
pub open spec fn slot_fault(input_ix: nat, state_ix: nat) -> Option<Failure> {
    if input_ix >= 2 || state_ix >= 2 {
        Some(
            Failure::Inference(
                "unexpected input index input_ix="@ + decimal(input_ix) + " state_ix="@ + decimal(
                    state_ix,
                ),
            ),
        )
    } else if input_ix == state_ix {
        Some(
            Failure::Inference(
                "tract input slot "@ + decimal((1 - input_ix) as nat) + " empty"@,
            ),
        )
    } else {
        None
    }
}

/// Checks that `input` and `state` fill both places of the model.
pub fn check_slots(input_ix: usize, state_ix: usize) -> (res: Result<(), VadError>)
    ensures
        match slot_fault(input_ix as nat, state_ix as nat) {
            None => res is Ok,
            Some(f) => res matches Err(e) && e@ == f,
        },
{
    if input_ix >= 2 || state_ix >= 2 {
        let mut m: String = join(
            "unexpected input index input_ix=",
            to_decimal(input_ix as u64).as_str(),
        );
        m.append(" state_ix=");
        m.append(to_decimal(state_ix as u64).as_str());
        return Err(VadError::Inference(m));
    }
    if input_ix == state_ix {
        return Err(
            VadError::Inference(
                join3(
                    "tract input slot ",
                    to_decimal(1 - input_ix as u64).as_str(),
                    " empty",
                ),
            ),
        );
    }
    Ok(())
}

/// One output of the model: its values, or why they could not be read.
pub type ModelOutput = Result<Vec<u32>, String>;

/// The answer of the model: the probability and the next state.
pub open spec fn answer(outputs: Seq<ModelOutput>, output_ix: nat, state_ix: nat) -> Result<
    (u32, Seq<u32>),
    Failure,
> {
    if output_ix >= outputs.len() {
        Err(
            Failure::Inference(
                "output index "@ + decimal(output_ix) + " for 'output' is out of range "@
                    + decimal(outputs.len()),
            ),
        )
    } else if state_ix >= outputs.len() {
        Err(
            Failure::Inference(
                "output index "@ + decimal(state_ix) + " for 'stateN' is out of range "@
                    + decimal(outputs.len()),
            ),
        )
    } else {
        match outputs[output_ix as int] {
            Err(m) => Err(Failure::Inference("output view: "@ + m@)),
            Ok(p) => if p@.len() != 1 {
                Err(
                    Failure::Inference(
                        "unexpected 'output' length "@ + decimal(p@.len()) + " (expected 1)"@,
                    ),
                )
            } else {
                match outputs[state_ix as int] {
                    Err(m) => Err(Failure::Inference("stateN view: "@ + m@)),
                    Ok(s) => if s@.len() != STATE_LEN {
                        Err(
                            Failure::Inference(
                                "unexpected 'stateN' length "@ + decimal(s@.len())
                                    + " (expected 256)"@,
                            ),
                        )
                    } else {
                        Ok((p@[0], s@))
                    },
                }
            },
        }
    }
}

fn index_error(label: &str, ix: usize, count: usize) -> (res: VadError)
    ensures
        res@ == Failure::Inference(
            "output index "@ + decimal(ix as nat) + label@ + decimal(count as nat),
        ),
{
    let mut m: String = join("output index ", to_decimal(ix as u64).as_str());
    m.append(label);
    m.append(to_decimal(count as u64).as_str());
    VadError::Inference(m)
}

/// Reads the answer of the model.
pub fn read_outputs(outputs: &Vec<ModelOutput>, output_ix: usize, state_ix: usize) -> (res: Result<
    (Level, Vec<u32>),
    VadError,
>)
    ensures
        match (answer(outputs@, output_ix as nat, state_ix as nat), res) {
            (Ok(w), Ok(g)) => g.0.bits == w.0 && g.1@ == w.1,
            (Err(w), Err(g)) => g@ == w,
            _ => false,
        },
{
    if output_ix >= outputs.len() {
        return Err(index_error(" for 'output' is out of range ", output_ix, outputs.len()));
    }
    if state_ix >= outputs.len() {
        return Err(index_error(" for 'stateN' is out of range ", state_ix, outputs.len()));
    }
    match &outputs[output_ix] {
        Err(m) => Err(VadError::Inference(join("output view: ", m.as_str()))),
        Ok(p) => {
            if p.len() != 1 {
                return Err(
                    VadError::Inference(
                        join3(
                            "unexpected 'output' length ",
                            to_decimal(p.len() as u64).as_str(),
                            " (expected 1)",
                        ),
                    ),
                );
            }
            match &outputs[state_ix] {
                Err(m) => Err(VadError::Inference(join("stateN view: ", m.as_str()))),
                Ok(s) => {
                    if s.len() != STATE_LEN {
                        return Err(
                            VadError::Inference(
                                join3(
                                    "unexpected 'stateN' length ",
                                    to_decimal(s.len() as u64).as_str(),
                                    " (expected 256)",
                                ),
                            ),
                        );
                    }
                    let copy: Vec<u32> = copy_range(s.as_slice(), 0, s.len());
                    assert(copy@ =~= s@);
                    Ok((Level { bits: p[0] }, copy))
                },
            }
        },
    }
}

/// What the model carries from frame to frame.
#[derive(Debug)]
pub struct SileroEngine {
    state: Vec<u32>,
    context: Vec<u32>,
}

fn zeros(n: usize) -> (res: Vec<u32>)
    ensures
        res@ == Seq::new(n as nat, |i: int| 0u32),
{
    let mut v: Vec<u32> = Vec::new();
    let mut i: usize = 0;
    while i < n
        invariant
            i <= n,
            v@ == Seq::new(i as nat, |k: int| 0u32),
        decreases n - i,
    {
        v.push(0);
        i = i + 1;
        assert(v@ =~= Seq::new(i as nat, |k: int| 0u32));
    }
    v
}

impl SileroEngine {
    /// The model state.
    pub closed spec fn spec_state(&self) -> Seq<u32> {
        self.state@
    }

    /// The samples in front of the next frame.
    pub closed spec fn spec_context(&self) -> Seq<u32> {
        self.context@
    }

    /// State and context have their lengths.
    pub open spec fn wf(&self) -> bool {
        self.spec_state().len() == STATE_LEN && self.spec_context().len() == MODEL_CONTEXT_SIZE
    }

    /// State and context are silent.
    pub open spec fn silent(&self) -> bool {
        &&& self.spec_state() == Seq::new(STATE_LEN as nat, |i: int| 0u32)
        &&& self.spec_context() == Seq::new(MODEL_CONTEXT_SIZE as nat, |i: int| 0u32)
    }

    /// An engine before its first frame.
    pub fn new() -> (res: SileroEngine)
        ensures
            res.wf(),
            res.silent(),
    {
        SileroEngine { state: zeros(STATE_LEN), context: zeros(MODEL_CONTEXT_SIZE) }
    }

    /// Returns to the state before the first frame.
    pub fn reset(&mut self)
        ensures
            final(self).wf(),
            final(self).silent(),
    {
        self.state = zeros(STATE_LEN);
        self.context = zeros(MODEL_CONTEXT_SIZE);
    }

    /// What goes into the model for a frame: the context, then the frame.
    pub fn input(&self, frame: &[u32]) -> (res: Vec<u32>)
        requires
            self.wf(),
            frame@.len() == MODEL_FRAME_SIZE,
        ensures
            res@ == self.spec_context() + frame@,
            res@.len() == MODEL_INPUT_LEN,
    {
        let mut x: Vec<u32> = copy_range(self.context.as_slice(), 0, self.context.len());
        assert(x@ =~= self.context@);
        append(&mut x, frame);
        x
    }

    /// The model state that goes in beside the frame.
    pub fn state(&self) -> (res: Vec<u32>)
        ensures
            res@ == self.spec_state(),
    {
        let s: Vec<u32> = copy_range(self.state.as_slice(), 0, self.state.len());
        assert(s@ =~= self.state@);
        s
    }

    /// Takes the answer of the model for `frame`: its probability. The state and the context
    /// move on only where the answer could be read.
    pub fn accept(
        &mut self,
        frame: &[u32],
        outputs: &Vec<ModelOutput>,
        output_ix: usize,
        state_ix: usize,
    ) -> (res: Result<Level, VadError>)
        requires
            old(self).wf(),
            frame@.len() == MODEL_FRAME_SIZE,
        ensures
            final(self).wf(),
            match answer(outputs@, output_ix as nat, state_ix as nat) {
                Ok(w) => {
                    &&& res matches Ok(p) && p.bits == w.0
                    &&& final(self).spec_state() == w.1
                    &&& final(self).spec_context() == frame@.skip(
                        MODEL_FRAME_SIZE - MODEL_CONTEXT_SIZE,
                    )
                },
                Err(w) => {
                    &&& res matches Err(e) && e@ == w
                    &&& final(self).spec_state() == old(self).spec_state()
                    &&& final(self).spec_context() == old(self).spec_context()
                },
            },
    {
        match read_outputs(outputs, output_ix, state_ix) {
            Ok((prob, state)) => {
                self.state = state;
                self.context = copy_range(
                    frame,
                    MODEL_FRAME_SIZE - MODEL_CONTEXT_SIZE,
                    MODEL_FRAME_SIZE,
                );
                assert(self.context@ =~= frame@.skip(
                    MODEL_FRAME_SIZE - MODEL_CONTEXT_SIZE,
                ));
                Ok(prob)
            },
            Err(e) => Err(e),
        }
    }
}

/// The context behind a frame is the end of what went into the model for it.
pub proof fn lemma_context_is_end_of_input(context: Seq<u32>, frame: Seq<u32>)
    requires
        context.len() == MODEL_CONTEXT_SIZE,
        frame.len() == MODEL_FRAME_SIZE,
    ensures
        (context + frame).skip(MODEL_INPUT_LEN - MODEL_CONTEXT_SIZE) == frame.skip(
            MODEL_FRAME_SIZE - MODEL_CONTEXT_SIZE,
        ),
{
    assert((context + frame).skip(MODEL_INPUT_LEN - MODEL_CONTEXT_SIZE) =~= frame.skip(
        MODEL_FRAME_SIZE - MODEL_CONTEXT_SIZE,
    ));
}

/// The inputs of the model are found exactly where there are two, one of either name, and
/// wherever each stands. Otherwise the first that is at fault is named.
pub proof fn lemma_where_inputs_are(v: Seq<Seq<char>>)
    ensures
        inputs_located(v) is Ok <==> v.len() == 2 && (v[0] == "input"@ && v[1] == "state"@ || v[0]
            == "state"@ && v[1] == "input"@),
        inputs_located(v) is Ok ==> {
            let (input, state) = inputs_located(v)->Ok_0;
            &&& 0 <= input < 2 && 0 <= state < 2
            &&& v[input] == "input"@ && v[state] == "state"@
        },
        v.len() != 2 ==> inputs_located(v) == Err::<(int, int), Failure>(
            Failure::ModelLoad("expected 2 inputs (input, state), got "@ + decimal(v.len())),
        ),
        forall|i: int|
            0 <= i < 2 && v.len() == 2 && #[trigger] v[i] != "input"@ && v[i] != "state"@ && (i == 0
                || v[0] == "input"@ || v[0] == "state"@) ==> inputs_located(v) == Err::<
                (int, int),
                Failure,
            >(Failure::ModelLoad("unexpected model input "@ + quoted(v[i]))),
        v.len() == 2 && v[0] == v[1] && (v[0] == "input"@ || v[0] == "state"@) ==> inputs_located(v)
            == Err::<(int, int), Failure>(
            Failure::ModelLoad("model inputs must be named 'input' and 'state'"@),
        ),
{
    reveal_strlit("input");
    reveal_strlit("state");
    assert("input"@[0] != "state"@[0]);
}

/// The outputs of the model are found exactly where there are two, one of either name, and
/// wherever each stands. Otherwise the first that is at fault is named.
pub proof fn lemma_where_outputs_are(v: Seq<Option<Seq<char>>>)
    ensures
        outputs_located(v) is Ok <==> v.len() == 2 && (v[0] == Some("output"@) && v[1] == Some(
            "stateN"@,
        ) || v[0] == Some("stateN"@) && v[1] == Some("output"@)),
        outputs_located(v) is Ok ==> {
            let (output, state) = outputs_located(v)->Ok_0;
            &&& 0 <= output < 2 && 0 <= state < 2
            &&& v[output] == Some("output"@) && v[state] == Some("stateN"@)
        },
        v.len() != 2 ==> outputs_located(v) == Err::<(int, int), Failure>(
            Failure::ModelLoad("expected 2 outputs (output, stateN), got "@ + decimal(v.len())),
        ),
        forall|i: int|
            0 <= i < 2 && v.len() == 2 && #[trigger] v[i] is None && (i == 0 || v[0] == Some(
                "output"@,
            ) || v[0] == Some("stateN"@)) ==> outputs_located(v) == Err::<(int, int), Failure>(
                Failure::ModelLoad(
                    "model output "@ + decimal(i as nat) + " has no ONNX output name"@,
                ),
            ),
        forall|i: int|
            0 <= i < 2 && v.len() == 2 && #[trigger] v[i] is Some && v[i] != Some("output"@) && v[i]
                != Some("stateN"@) && (i == 0 || v[0] == Some("output"@) || v[0] == Some(
                "stateN"@,
            )) ==> outputs_located(v) == Err::<(int, int), Failure>(
                Failure::ModelLoad("unexpected model output "@ + quoted(v[i]->0)),
            ),
        v.len() == 2 && v[0] == v[1] && (v[0] == Some("output"@) || v[0] == Some("stateN"@))
            ==> outputs_located(v) == Err::<(int, int), Failure>(
            Failure::ModelLoad("duplicate model output name "@ + quoted(v[0]->0)),
        ),
{
    reveal_strlit("output");
    reveal_strlit("stateN");
    assert("output"@[0] != "stateN"@[0]);
    if v.len() == 2 && v[0] is Some {
        let earlier = seq![v[0]->0];
        assert(earlier[0] == v[0]->0);
        assert(earlier.contains(v[0]->0));
        if v[1] is Some && earlier.contains(v[1]->0) {
            assert(v[1]->0 == v[0]->0);
        }
    }
}

/// The two places of the model are filled exactly by the two numbers 0 and 1, in either order.
pub proof fn lemma_both_slots_filled(input_ix: nat, state_ix: nat)
    ensures
        slot_fault(input_ix, state_ix) is None <==> input_ix + state_ix == 1,
        input_ix >= 2 || state_ix >= 2 ==> slot_fault(input_ix, state_ix) == Some(
            Failure::Inference(
                "unexpected input index input_ix="@ + decimal(input_ix) + " state_ix="@ + decimal(
                    state_ix,
                ),
            ),
        ),
        slot_fault(0, 0) == Some(
            Failure::Inference("tract input slot "@ + decimal(1) + " empty"@),
        ),
        slot_fault(1, 1) == Some(
            Failure::Inference("tract input slot "@ + decimal(0) + " empty"@),
        ),
{
}

/// The answer of the model counts exactly where both outputs are there and could be read, the one
/// a single number and the other a whole state; then it is that number and that state.
pub proof fn lemma_what_the_model_answers(outputs: Seq<ModelOutput>, output_ix: nat, state_ix: nat)
    ensures
        ({
            let there = output_ix < outputs.len() && state_ix < outputs.len();
            let out = outputs[output_ix as int];
            let state = outputs[state_ix as int];
            let res = answer(outputs, output_ix, state_ix);
            &&& res is Ok <==> there && out is Ok && state is Ok && out->Ok_0@.len() == 1
                && state->Ok_0@.len() == 256
            &&& res is Ok ==> res->Ok_0.0 == out->Ok_0@[0] && res->Ok_0.1 == state->Ok_0@
            &&& output_ix >= outputs.len() ==> res == Err::<(u32, Seq<u32>), Failure>(
                Failure::Inference(
                    "output index "@ + decimal(output_ix) + " for 'output' is out of range "@
                        + decimal(outputs.len()),
                ),
            )
            &&& output_ix < outputs.len() <= state_ix ==> res == Err::<(u32, Seq<u32>), Failure>(
                Failure::Inference(
                    "output index "@ + decimal(state_ix) + " for 'stateN' is out of range "@
                        + decimal(outputs.len()),
                ),
            )
            &&& there && out is Err ==> res == Err::<(u32, Seq<u32>), Failure>(
                Failure::Inference("output view: "@ + out->Err_0@),
            )
            &&& there && out is Ok && out->Ok_0@.len() != 1 ==> res == Err::<
                (u32, Seq<u32>),
                Failure,
            >(
                Failure::Inference(
                    "unexpected 'output' length "@ + decimal(out->Ok_0@.len()) + " (expected 1)"@,
                ),
            )
            &&& there && out is Ok && out->Ok_0@.len() == 1 && state is Err ==> res == Err::<
                (u32, Seq<u32>),
                Failure,
            >(Failure::Inference("stateN view: "@ + state->Err_0@))
            &&& there && out is Ok && out->Ok_0@.len() == 1 && state is Ok && state->Ok_0@.len()
                != 256 ==> res == Err::<(u32, Seq<u32>), Failure>(
                Failure::Inference(
                    "unexpected 'stateN' length "@ + decimal(state->Ok_0@.len())
                        + " (expected 256)"@,
                ),
            )
        }),
{
}

/// A name that is new stays as it is, and one that is not gets `#` and its position behind it, and
/// is looked at again.
pub proof fn lemma_marked_until_new(seen: Seq<Seq<char>>, name: Seq<char>, i: nat)
    ensures
        !seen.contains(name) ==> unused(seen, name, i) == name,
        seen.contains(name) ==> unused(seen, name, i) == unused(
            seen,
            name + ("#"@ + decimal(i)),
            i,
        ),
        !seen.contains(unused(seen, name, i)),
{
    lemma_unused_is_new(seen, name, i);
}

/// An engine before its first frame carries 256 zeros as its state and 64 as its context.
pub proof fn lemma_silent_engine_is_zero(e: SileroEngine, i: int)
    requires
        e.silent(),
    ensures
        e.spec_state().len() == 256,
        e.spec_context().len() == 64,
        0 <= i < 256 ==> e.spec_state()[i] == 0,
        0 <= i < 64 ==> e.spec_context()[i] == 0,
{
}

} // verus!
