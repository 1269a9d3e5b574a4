//! Variables, signals, and the inputs of a decoder.
use std::sync::Arc;
use vstd::prelude::*;
use crate::decoders::error::{DecoderError, ErrorView};
use crate::decoders::settings::DecoderSettings;
use crate::text;

verus! {

/// A variable, named by its scopes and its own name.
#[derive(Debug, PartialEq, Eq)]
pub struct VariableRef {
    /// The names of the scopes around the variable, outermost first.
    pub path: Vec<String>,
    pub name: String,
}

/// A [`VariableRef`] with its texts as sequences of characters.
#[verifier::ext_equal]
pub struct VariableView {
    pub path: Seq<Seq<char>>,
    pub name: Seq<char>,
}

impl View for VariableRef {
    type V = VariableView;

    open spec fn view(&self) -> VariableView {
        VariableView { path: text::texts(self.path@), name: self.name@ }
    }
}

/// The scope names and the variable's name, in order.
pub open spec fn components(variable: VariableView) -> Seq<Seq<char>> {
    variable.path.push(variable.name)
}

/// The hierarchical name: the components with dots between them.
pub open spec fn full_path(variable: VariableView) -> Seq<char> {
    text::joined(components(variable), seq!['.'])
}

/// Whether no component contains a dot, so that the hierarchical name can be
/// taken apart again.
pub open spec fn dotless(variable: VariableView) -> bool {
    forall|i: int|
        0 <= i < components(variable).len() ==> !(#[trigger] components(variable)[i]).contains('.')
}

/// The parts of a text between its dots.
pub open spec fn split_dots(name: Seq<char>) -> Seq<Seq<char>>
    decreases name.len(),
{
    if name.len() == 0 {
        seq![Seq::empty()]
    } else {
        let parts = split_dots(name.drop_last());
        if name.last() == '.' {
            parts.push(Seq::empty())
        } else {
            parts.drop_last().push(parts.last().push(name.last()))
        }
    }
}

/// The variable with a hierarchical name: the last part is its own name, and
/// those before it name its scopes.
pub open spec fn named_variable(name: Seq<char>) -> VariableView {
    VariableView { path: split_dots(name).drop_last(), name: split_dots(name).last() }
}

proof fn split_is_nonempty(name: Seq<char>)
    ensures
        split_dots(name).len() > 0,
    decreases name.len(),
{
    if name.len() > 0 {
        split_is_nonempty(name.drop_last());
    }
}

proof fn joined_extends(parts: Seq<Seq<char>>, c: char)
    requires
        parts.len() > 0,
    ensures
        text::joined(parts.drop_last().push(parts.last().push(c)), seq!['.']) == text::joined(
            parts,
            seq!['.'],
        ).push(c),
        text::joined(parts.push(Seq::empty()), seq!['.']) == text::joined(parts, seq!['.']).push(
            '.',
        ),
{
    let longer = parts.drop_last().push(parts.last().push(c));
    assert(longer.drop_last() =~= parts.drop_last());
    assert(text::joined(longer, seq!['.']) =~= text::joined(parts, seq!['.']).push(c));
    let more = parts.push(Seq::<char>::empty());
    assert(more.drop_last() =~= parts);
    assert(text::joined(more, seq!['.']) =~= text::joined(parts, seq!['.']).push('.'));
}

/// A variable found by a hierarchical name has that hierarchical name, and none
/// of its components contains a dot.
pub proof fn named_variable_has_name(name: Seq<char>)
    ensures
        full_path(named_variable(name)) == name,
        dotless(named_variable(name)),
    decreases name.len(),
{
    split_is_nonempty(name);
    assert(components(named_variable(name)) =~= split_dots(name));
    if name.len() > 0 {
        let before = name.drop_last();
        named_variable_has_name(before);
        split_is_nonempty(before);
        let parts = split_dots(before);
        assert(components(named_variable(before)) =~= parts);
        joined_extends(parts, name.last());
        assert(before.push(name.last()) =~= name);
        let all = split_dots(name);
        assert forall|i: int| 0 <= i < all.len() implies !(#[trigger] all[i]).contains('.') by {
            if i < parts.len() {
                assert(!parts[i].contains('.'));
            }
            if i == parts.len() - 1 && name.last() != '.' {
                if all[i].contains('.') {
                    let j = choose|j: int| 0 <= j < all[i].len() && all[i][j] == '.';
                    assert(parts[i][j] == '.');
                }
            }
        }
    } else {
        assert(split_dots(name)[0] =~= name);
    }
}

/// A variable whose components contain no dot is found by its hierarchical name.
pub proof fn full_path_finds_variable(variable: VariableView)
    requires
        dotless(variable),
    ensures
        named_variable(full_path(variable)) == variable,
{
    let parts = components(variable);
    assert(parts.last() == variable.name);
    assert(parts.drop_last() =~= variable.path);
    split_of_joined(parts);
}

proof fn split_of_joined(parts: Seq<Seq<char>>)
    requires
        parts.len() > 0,
        forall|i: int| 0 <= i < parts.len() ==> !(#[trigger] parts[i]).contains('.'),
    ensures
        split_dots(text::joined(parts, seq!['.'])) == parts,
    decreases parts.len(), parts.last().len(),
{
    let front = parts.drop_last();
    let last = parts.last();
    let whole = text::joined(parts, seq!['.']);
    if last.len() > 0 {
        let shorter = front.push(last.drop_last());
        assert forall|i: int| 0 <= i < shorter.len() implies !(
        #[trigger] shorter[i]).contains('.') by {
            assert(!parts[i].contains('.'));
            if i == front.len() && shorter[i].contains('.') {
                let j = choose|j: int| 0 <= j < shorter[i].len() && shorter[i][j] == '.';
                assert(parts[i][j] == '.');
            }
        }
        split_of_joined(shorter);
        joined_extends(shorter, last.last());
        assert(shorter.drop_last() =~= front);
        assert(last.drop_last().push(last.last()) =~= last);
        assert(front.push(last) =~= parts);
        assert(last[last.len() - 1] == last.last());
        assert(!parts[parts.len() - 1].contains('.'));
        assert(last.last() != '.');
        assert(whole == text::joined(shorter, seq!['.']).push(last.last()));
        assert(whole.drop_last() =~= text::joined(shorter, seq!['.']));
    } else if parts.len() == 1 {
        assert(whole =~= Seq::<char>::empty());
        assert(parts =~= seq![Seq::<char>::empty()]);
    } else {
        assert forall|i: int| 0 <= i < front.len() implies !(#[trigger] front[i]).contains('.') by {
            assert(!parts[i].contains('.'));
        }
        split_of_joined(front);
        joined_extends(front, '.');
        assert(last =~= Seq::<char>::empty());
        assert(front.push(Seq::<char>::empty()) =~= parts);
        assert(whole.drop_last() =~= text::joined(front, seq!['.']));
    }
}

fn copy_texts(parts: &Vec<String>) -> (copy: Vec<String>)
    ensures
        copy@ == parts@,
{
    let mut copy: Vec<String> = Vec::new();
    let mut i: usize = 0;
    while i < parts.len()
        invariant
            i <= parts.len(),
            copy@ == parts@.take(i as int),
        decreases parts.len() - i,
    {
        copy.push(parts[i].clone());
        i += 1;
    }
    copy
}

impl Clone for VariableRef {
    fn clone(&self) -> (copy: Self)
        ensures
            copy@ == self@,
    {
        VariableRef { path: copy_texts(&self.path), name: self.name.clone() }
    }
}

impl VariableRef {
    /// The variable with the given hierarchical name: what stands before the
    /// last dot names its scopes.
    pub fn from_hierarchy_string(name: &str) -> (variable: Self)
        ensures
            variable@ == named_variable(name@),
    {
        let chars = text::chars_of(name);
        let mut path: Vec<String> = Vec::new();
        let mut last = String::new();
        let mut i: usize = 0;
        proof {
            assert(name@.take(0) =~= Seq::<char>::empty());
            assert(last@ =~= Seq::<char>::empty());
            assert(components(VariableRef { path, name: last }@) =~= split_dots(name@.take(0)));
        }
        while i < chars.len()
            invariant
                chars@ == name@,
                i <= chars.len(),
                components(VariableRef { path, name: last }@) == split_dots(name@.take(i as int)),
            decreases chars.len() - i,
        {
            let ghost before = components(VariableRef { path, name: last }@);
            proof {
                assert(name@.take(i + 1).drop_last() =~= name@.take(i as int));
                assert(before.drop_last() =~= text::texts(path@));
                assert(before.last() == last@);
            }
            let c = chars[i];
            if c == '.' {
                path.push(last);
                last = String::new();
                proof {
                    assert(last@ =~= Seq::<char>::empty());
                    assert(components(VariableRef { path, name: last }@) =~= before.push(
                        Seq::empty(),
                    ));
                }
            } else {
                last.push(c);
                assert(components(VariableRef { path, name: last }@) =~= before.drop_last().push(
                    before.last().push(c),
                ));
            }
            i += 1;
        }
        let variable = VariableRef { path, name: last };
        proof {
            assert(name@.take(i as int) =~= name@);
            assert(variable@.path =~= components(variable@).drop_last());
        }
        variable
    }

    /// The hierarchical name of the variable.
    pub fn full_path_string(&self) -> (name: String)
        ensures
            name@ == full_path(self@),
    {
        let mut parts = copy_texts(&self.path);
        parts.push(self.name.clone());
        proof {
            reveal_strlit(".");
            assert("."@ =~= seq!['.']);
            assert(text::texts(parts@) =~= components(self@));
        }
        text::join_text(&parts, ".")
    }

    /// Whether this and `other` are the same variable.
    pub fn same_variable(&self, other: &VariableRef) -> (same: bool)
        ensures
            same == (self@ == other@),
    {
        if self.name != other.name || self.path.len() != other.path.len() {
            assert(self@.path.len() == self.path@.len());
            assert(other@.path.len() == other.path@.len());
            return false;
        }
        let mut i: usize = 0;
        while i < self.path.len()
            invariant
                i <= self.path.len(),
                self.path.len() == other.path.len(),
                forall|k: int| 0 <= k < i ==> self.path@[k]@ == other.path@[k]@,
            decreases self.path.len() - i,
        {
            if self.path[i] != other.path[i] {
                assert(self@.path[i as int] != other@.path[i as int]);
                return false;
            }
            i += 1;
        }
        assert(self@ =~= other@);
        true
    }
}

/// The value of a variable at some time.
#[derive(Debug, PartialEq, Eq)]
pub enum VariableValue {
    /// A number, as its bytes with the least significant one first.
    BigUint(Vec<u8>),
    /// Text with one character for each bit, for values that are not numbers.
    String(String),
}

/// The number that `bytes` stand for, with the least significant one first.
pub open spec fn little_endian(bytes: Seq<u8>) -> nat
    decreases bytes.len(),
{
    if bytes.len() == 0 {
        0
    } else {
        bytes[0] as nat + 256 * little_endian(bytes.drop_first())
    }
}

/// Compares two numbers of `num`: the one that `BigUint::from_bytes_le` makes
/// of `bytes`, and `BigUint::from` of `small`. They are equal when the bytes,
/// least significant first, stand for `small`.
#[verifier::external_body]
fn big_equals(bytes: &Vec<u8>, small: u8) -> (equal: bool)
    ensures
        equal == (little_endian(bytes@) == small),
{
    num::BigUint::from_bytes_le(bytes) == num::BigUint::from(small)
}

/// What a 1-bit value can be.
#[derive(Debug, Clone, Copy, PartialEq, Eq, Structural)]
pub enum Bit {
    Zero,
    One,
    Undef,
    HighImp,
    DontCare,
    Weak,
}

/// The bit that a character stands for.
pub open spec fn bit_of_char(c: char) -> Bit {
    if c == '0' {
        Bit::Zero
    } else if c == '1' {
        Bit::One
    } else if c == 'z' || c == 'Z' {
        Bit::HighImp
    } else if c == '-' {
        Bit::DontCare
    } else if c == 'w' || c == 'W' || c == 'h' || c == 'H' || c == 'l' || c == 'L' {
        Bit::Weak
    } else {
        Bit::Undef
    }
}

/// The bit that a value stands for: the numbers zero and one are the two
/// levels, and text is read by its first character.
pub open spec fn bit_of_value(value: VariableValue) -> Bit {
    match value {
        VariableValue::BigUint(bytes) => if little_endian(bytes@) == 0 {
            Bit::Zero
        } else if little_endian(bytes@) == 1 {
            Bit::One
        } else {
            Bit::Undef
        },
        VariableValue::String(text) => if text@.len() == 0 {
            Bit::Undef
        } else {
            bit_of_char(text@[0])
        },
    }
}

/// The bit that `value` stands for.
pub fn bit_of(value: &VariableValue) -> (bit: Bit)
    ensures
        bit == bit_of_value(*value),
{
    match value {
        VariableValue::BigUint(bytes) => if big_equals(bytes, 0) {
            Bit::Zero
        } else if big_equals(bytes, 1) {
            Bit::One
        } else {
            Bit::Undef
        },
        VariableValue::String(text) => match text::first_char(text.as_str()) {
            Some('0') => Bit::Zero,
            Some('1') => Bit::One,
            Some('z') | Some('Z') => Bit::HighImp,
            Some('-') => Bit::DontCare,
            Some('w') | Some('W') | Some('h') | Some('H') | Some('l') | Some('L') => Bit::Weak,
            _ => Bit::Undef,
        },
    }
}

/// Whether the changes are in the order of their times.
pub open spec fn in_time_order(changes: Seq<(u64, VariableValue)>) -> bool {
    forall|i: int, j: int|
        0 <= i <= j < changes.len() ==> (#[trigger] changes[i]).0 <= (#[trigger] changes[j]).0
}

/// The changes of one signal, in the order of their times.
#[derive(Debug, PartialEq, Eq)]
pub struct SignalAccessor {
    changes: Arc<Vec<(u64, VariableValue)>>,
}

impl View for SignalAccessor {
    type V = Seq<(u64, VariableValue)>;

    closed spec fn view(&self) -> Seq<(u64, VariableValue)> {
        self.changes@
    }
}

impl Clone for SignalAccessor {
    fn clone(&self) -> (copy: Self)
        ensures
            copy@ == self@,
    {
        proof {
            use_type_invariant(self);
        }
        SignalAccessor { changes: self.changes.clone() }
    }
}

impl SignalAccessor {
    #[verifier::type_invariant]
    spec fn ordered(self) -> bool {
        in_time_order(self.changes@)
    }

    /// The signal with the given changes, if they are in time order.
    pub fn new(changes: Vec<(u64, VariableValue)>) -> (accessor: Option<Self>)
        ensures
            match accessor {
                Some(signal) => in_time_order(changes@) && signal@ == changes@,
                None => !in_time_order(changes@),
            },
    {
        let mut i: usize = 0;
        while i < changes.len()
            invariant
                i <= changes.len(),
                in_time_order(changes@.take(i as int)),
            decreases changes.len() - i,
        {
            if i > 0 && changes[i].0 < changes[i - 1].0 {
                assert(changes@[i - 1].0 > changes@[i as int].0);
                return None;
            }
            proof {
                let before = changes@.take(i as int);
                let after = changes@.take(i + 1);
                assert forall|a: int, b: int| 0 <= a <= b < after.len() implies (
                #[trigger] after[a]).0 <= (#[trigger] after[b]).0 by {
                    if b < i {
                        assert(before[a].0 <= before[b].0);
                    } else if a < i {
                        assert(before[a].0 <= before[i - 1].0);
                    }
                }
            }
            i += 1;
        }
        assert(changes@.take(i as int) =~= changes@);
        Some(SignalAccessor { changes: Arc::new(changes) })
    }

    /// The changes, in the order of their times.
    pub fn changes(&self) -> (changes: &Vec<(u64, VariableValue)>)
        ensures
            changes@ == self@,
            in_time_order(changes@),
    {
        proof {
            use_type_invariant(self);
        }
        &self.changes
    }
}

/// A signal of a waveform.
#[derive(Debug, Clone, Copy, PartialEq, Eq, Structural)]
pub struct SignalId(pub usize);

/// What a waveform knows of one variable.
#[derive(Debug, PartialEq, Eq)]
pub struct WaveVariable {
    pub variable_ref: VariableRef,
    pub num_bits: Option<u32>,
    pub signal: SignalId,
}

/// The changes of a signal that has been loaded.
#[derive(Debug, PartialEq, Eq)]
pub struct LoadedSignal {
    pub id: SignalId,
    pub accessor: SignalAccessor,
}

/// A waveform: its variables, and the signals loaded so far. Several variables
/// may share one signal.
#[derive(Debug, PartialEq, Eq)]
pub struct WaveContainer {
    pub variables: Vec<WaveVariable>,
    pub signals: Vec<LoadedSignal>,
}

/// The position of a variable among those of a waveform, from `from` on.
pub open spec fn variable_index(
    variables: Seq<WaveVariable>,
    variable: VariableView,
    from: int,
) -> Option<int>
    decreases variables.len() - from,
{
    if from < 0 || from >= variables.len() {
        None
    } else if variables[from].variable_ref@ == variable {
        Some(from)
    } else {
        variable_index(variables, variable, from + 1)
    }
}

/// The position of a signal among the loaded ones, from `from` on.
pub open spec fn signal_index(signals: Seq<LoadedSignal>, id: SignalId, from: int) -> Option<int>
    decreases signals.len() - from,
{
    if from < 0 || from >= signals.len() {
        None
    } else if signals[from].id == id {
        Some(from)
    } else {
        signal_index(signals, id, from + 1)
    }
}

impl WaveContainer {
    fn find_variable(&self, variable: &VariableRef) -> (index: Option<usize>)
        ensures
            match (index, variable_index(self.variables@, variable@, 0)) {
                (Some(i), Some(k)) => i == k && i < self.variables.len(),
                (None, None) => true,
                _ => false,
            },
    {
        let mut i: usize = 0;
        while i < self.variables.len()
            invariant
                i <= self.variables.len(),
                variable_index(self.variables@, variable@, 0) == variable_index(
                    self.variables@,
                    variable@,
                    i as int,
                ),
            decreases self.variables.len() - i,
        {
            if self.variables[i].variable_ref.same_variable(variable) {
                return Some(i);
            }
            i += 1;
        }
        None
    }

    /// The width of a variable.
    pub fn num_bits(&self, variable: &VariableRef) -> (bits: Result<Option<u32>, DecoderError>)
        ensures
            match (bits, variable_index(self.variables@, variable@, 0)) {
                (Ok(n), Some(i)) => n == self.variables@[i].num_bits,
                (Err(error), None) => error@ == (ErrorView::UnknownVariable {
                    variable: full_path(variable@),
                }),
                _ => false,
            },
    {
        match self.find_variable(variable) {
            Some(i) => Ok(self.variables[i].num_bits),
            None => Err(DecoderError::UnknownVariable { variable: variable.full_path_string() }),
        }
    }

    /// The signal of a variable.
    pub fn signal_id(&self, variable: &VariableRef) -> (id: Result<SignalId, DecoderError>)
        ensures
            match (id, variable_index(self.variables@, variable@, 0)) {
                (Ok(signal), Some(i)) => signal == self.variables@[i].signal,
                (Err(error), None) => error@ == (ErrorView::UnknownVariable {
                    variable: full_path(variable@),
                }),
                _ => false,
            },
    {
        match self.find_variable(variable) {
            Some(i) => Ok(self.variables[i].signal),
            None => Err(DecoderError::UnknownVariable { variable: variable.full_path_string() }),
        }
    }

    /// The changes of a signal, if it has been loaded.
    pub fn signal_accessor(&self, id: SignalId) -> (accessor: Option<SignalAccessor>)
        ensures
            match (accessor, signal_index(self.signals@, id, 0)) {
                (Some(signal), Some(i)) => signal@ == self.signals@[i].accessor@,
                (None, None) => true,
                _ => false,
            },
    {
        let mut i: usize = 0;
        while i < self.signals.len()
            invariant
                i <= self.signals.len(),
                signal_index(self.signals@, id, 0) == signal_index(self.signals@, id, i as int),
            decreases self.signals.len() - i,
        {
            if self.signals[i].id == id {
                return Some(self.signals[i].accessor.clone());
            }
            i += 1;
        }
        None
    }
}

/// Description of one input a decoder needs.
#[derive(Debug, PartialEq, Eq)]
pub struct InputSpec {
    /// Stable identifier used to bind a signal, e.g. `"bitclk"`.
    pub role: String,
    /// Human-readable description shown to the user.
    pub description: String,
    /// Whether a signal must be assigned to this input.
    pub required: bool,
}

/// An [`InputSpec`] with its texts as sequences of characters.
#[verifier::ext_equal]
pub struct InputSpecView {
    pub role: Seq<char>,
    pub description: Seq<char>,
    pub required: bool,
}

impl View for InputSpec {
    type V = InputSpecView;

    open spec fn view(&self) -> InputSpecView {
        InputSpecView {
            role: self.role@,
            description: self.description@,
            required: self.required,
        }
    }
}

impl Clone for InputSpec {
    fn clone(&self) -> (copy: Self)
        ensures
            copy@ == self@,
    {
        InputSpec {
            role: self.role.clone(),
            description: self.description.clone(),
            required: self.required,
        }
    }
}

impl InputSpec {
    /// An input that must be assigned.
    pub fn required(role: &str, description: &str) -> (spec: Self)
        ensures
            spec@ == (InputSpecView { role: role@, description: description@, required: true }),
    {
        InputSpec { role: role.to_owned(), description: description.to_owned(), required: true }
    }

    /// An input that may be left unassigned.
    pub fn optional(role: &str, description: &str) -> (spec: Self)
        ensures
            spec@ == (InputSpecView { role: role@, description: description@, required: false }),
    {
        InputSpec { role: role.to_owned(), description: description.to_owned(), required: false }
    }
}

/// The views of a list of input descriptions.
pub open spec fn spec_views(specs: Seq<InputSpec>) -> Seq<InputSpecView> {
    Seq::new(specs.len(), |i: int| specs[i]@)
}

/// A signal assigned to one decoder input role.
#[derive(Debug, PartialEq)]
pub struct DecoderInput {
    pub role: String,
    pub variable_ref: VariableRef,
}

/// A [`DecoderInput`] with its texts as sequences of characters.
#[verifier::ext_equal]
pub struct InputView {
    pub role: Seq<char>,
    pub variable: VariableView,
}

impl View for DecoderInput {
    type V = InputView;

    open spec fn view(&self) -> InputView {
        InputView { role: self.role@, variable: self.variable_ref@ }
    }
}

impl Clone for DecoderInput {
    fn clone(&self) -> (copy: Self)
        ensures
            copy@ == self@,
    {
        DecoderInput { role: self.role.clone(), variable_ref: self.variable_ref.clone() }
    }
}

/// The views of a list of inputs.
pub open spec fn input_views(inputs: Seq<DecoderInput>) -> Seq<InputView> {
    Seq::new(inputs.len(), |i: int| inputs[i]@)
}

/// A decoder input with its signal resolved and ready to be read.
#[derive(Debug, PartialEq)]
pub struct DecoderInputSignal {
    pub role: String,
    pub variable_ref: VariableRef,
    pub num_bits: Option<u32>,
    pub accessor: SignalAccessor,
}

/// A [`DecoderInputSignal`] with its texts as sequences of characters.
#[verifier::ext_equal]
pub struct SignalView {
    pub role: Seq<char>,
    pub variable: VariableView,
    pub num_bits: Option<u32>,
    pub changes: Seq<(u64, VariableValue)>,
}

impl View for DecoderInputSignal {
    type V = SignalView;

    open spec fn view(&self) -> SignalView {
        SignalView {
            role: self.role@,
            variable: self.variable_ref@,
            num_bits: self.num_bits,
            changes: self.accessor@,
        }
    }
}

/// The views of a list of resolved inputs.
pub open spec fn signal_views(inputs: Seq<DecoderInputSignal>) -> Seq<SignalView> {
    Seq::new(inputs.len(), |i: int| inputs[i]@)
}

/// The first resolved input, from position `from` on, that has the role.
pub open spec fn input_for(inputs: Seq<SignalView>, role: Seq<char>, from: int) -> Option<SignalView>
    decreases inputs.len() - from,
{
    if from < 0 || from >= inputs.len() {
        None
    } else if inputs[from].role == role {
        Some(inputs[from])
    } else {
        input_for(inputs, role, from + 1)
    }
}

/// Everything a decoder needs to decode its inputs.
pub struct DecoderContext<'a> {
    pub inputs: &'a Vec<DecoderInputSignal>,
    pub settings: &'a DecoderSettings,
}

impl<'a> DecoderContext<'a> {
    /// Find the signal assigned to `role`.
    pub fn input(&self, role: &str) -> (input: Result<&DecoderInputSignal, DecoderError>)
        ensures
            match (input, input_for(signal_views(self.inputs@), role@, 0)) {
                (Ok(signal), Some(view)) => signal@ == view,
                (Err(error), None) => error@ == (ErrorView::UnassignedInput { role: role@ }),
                _ => false,
            },
    {
        match self.optional_input(role) {
            Some(signal) => Ok(signal),
            None => Err(DecoderError::UnassignedInput { role: role.to_owned() }),
        }
    }

    /// Find the signal assigned to `role`, if any.
    pub fn optional_input(&self, role: &str) -> (input: Option<&DecoderInputSignal>)
        ensures
            match (input, input_for(signal_views(self.inputs@), role@, 0)) {
                (Some(signal), Some(view)) => signal@ == view,
                (None, None) => true,
                _ => false,
            },
    {
        let mut i: usize = 0;
        while i < self.inputs.len()
            invariant
                i <= self.inputs.len(),
                input_for(signal_views(self.inputs@), role@, 0) == input_for(
                    signal_views(self.inputs@),
                    role@,
                    i as int,
                ),
            decreases self.inputs.len() - i,
        {
            assert(signal_views(self.inputs@)[i as int] == self.inputs@[i as int]@);
            if text::same_text(self.inputs[i].role.as_str(), role) {
                return Some(&self.inputs[i]);
            }
            i += 1;
        }
        None
    }
}

/// Why an input cannot be resolved: its variable is not in the waveform, or its
/// signal has not been loaded.
pub open spec fn unresolved(waves: WaveContainer, input: InputView) -> Option<ErrorView> {
    match variable_index(waves.variables@, input.variable, 0) {
        None => Some(ErrorView::UnknownVariable { variable: full_path(input.variable) }),
        Some(i) => match signal_index(waves.signals@, waves.variables@[i].signal, 0) {
            None => Some(ErrorView::SignalNotLoaded { variable: full_path(input.variable) }),
            Some(_) => None,
        },
    }
}

/// The first reason, from position `from` on, why an input cannot be resolved.
pub open spec fn first_unresolved(
    waves: WaveContainer,
    inputs: Seq<InputView>,
    from: int,
) -> Option<ErrorView>
    decreases inputs.len() - from,
{
    if from < 0 || from >= inputs.len() {
        None
    } else if unresolved(waves, inputs[from]) is Some {
        unresolved(waves, inputs[from])
    } else {
        first_unresolved(waves, inputs, from + 1)
    }
}

/// An input with what the waveform holds of its variable.
pub open spec fn resolved(waves: WaveContainer, input: InputView) -> SignalView {
    let variable = waves.variables@[variable_index(waves.variables@, input.variable, 0).unwrap()];
    SignalView {
        role: input.role,
        variable: input.variable,
        num_bits: variable.num_bits,
        changes: waves.signals@[signal_index(waves.signals@, variable.signal, 0).unwrap()].accessor@,
    }
}

/// Resolve the configured input variables into readable signals.
pub fn resolve_inputs(waves: &WaveContainer, inputs: &Vec<DecoderInput>) -> (signals: Result<
    Vec<DecoderInputSignal>,
    DecoderError,
>)
    ensures
        match (signals, first_unresolved(*waves, input_views(inputs@), 0)) {
            (Ok(found), None) => signal_views(found@) == input_views(inputs@).map_values(
                |input: InputView| resolved(*waves, input),
            ),
            (Err(error), Some(reason)) => error@ == reason,
            _ => false,
        },
{
    let mut found: Vec<DecoderInputSignal> = Vec::new();
    let mut i: usize = 0;
    while i < inputs.len()
        invariant
            i <= inputs.len(),
            found.len() == i,
            forall|k: int|
                0 <= k < i ==> (#[trigger] found@[k])@ == resolved(*waves, inputs@[k]@),
            first_unresolved(*waves, input_views(inputs@), 0) == first_unresolved(
                *waves,
                input_views(inputs@),
                i as int,
            ),
        decreases inputs.len() - i,
    {
        let input = &inputs[i];
        assert(input_views(inputs@)[i as int] == input@);
        let num_bits = match waves.num_bits(&input.variable_ref) {
            Ok(num_bits) => num_bits,
            Err(error) => {
                return Err(error);
            },
        };
        let id = match waves.signal_id(&input.variable_ref) {
            Ok(id) => id,
            Err(error) => {
                return Err(error);
            },
        };
        match waves.signal_accessor(id) {
            Some(accessor) => {
                found.push(
                    DecoderInputSignal {
                        role: input.role.clone(),
                        variable_ref: input.variable_ref.clone(),
                        num_bits,
                        accessor,
                    },
                );
                assert(found@[i as int]@ =~= resolved(*waves, input@));
            },
            None => {
                return Err(
                    DecoderError::SignalNotLoaded {
                        variable: input.variable_ref.full_path_string(),
                    },
                );
            },
        }
        i += 1;
    }
    Ok(found)
}

/// The fault of an input that does not have exactly one bit.
pub open spec fn width_fault(input: SignalView, role: Seq<char>) -> Option<ErrorView> {
    if input.num_bits == Some(1u32) {
        None
    } else {
        Some(
            ErrorView::NotSingleBit {
                role,
                variable: input.variable.name,
                bits: input.num_bits,
            },
        )
    }
}

/// Check that an input has exactly one bit.
pub fn check_single_bit(input: &DecoderInputSignal, role: &str) -> (result: Result<(), DecoderError>)
    ensures
        match (result, width_fault(input@, role@)) {
            (Ok(()), None) => true,
            (Err(error), Some(fault)) => error@ == fault,
            _ => false,
        },
{
    match input.num_bits {
        Some(1) => Ok(()),
        bits => Err(
            DecoderError::NotSingleBit {
                role: role.to_owned(),
                variable: input.variable_ref.name.clone(),
                bits,
            },
        ),
    }
}

} // verus!
