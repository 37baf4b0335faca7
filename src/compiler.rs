//! The assembler: label binding, symbol substitution, decoding and encoding.

use vstd::prelude::*;
use rayon::iter::{IntoParallelRefIterator, ParallelIterator};
use crate::instructions::{
    Instruction, Mnemonic, mnemonic_of, is_dat, word_of, lookup_mnemonic, is_dat_word,
};
use crate::tables::{LabelTable, ValueTable, label_entries, value_entries};
use crate::text::{
    lines, words, parse_i32, parse_address, decimal, split_lines, split_words, chars_of, read_i32,
    read_address, write_decimal,
};

verus! {

/// The number of cells of the target machine's memory, and so the most lines
/// a program may have.
pub const MEMORY_SIZE: usize = 100;

/// Why a program cannot be assembled.
#[derive(Clone, Copy, Debug, PartialEq, Eq, Structural)]
pub enum CompileError {
    /// The source has more lines than memory has cells.
    TooManyLines,
    /// A token that must be a number is not one, or is out of range.
    ParseError,
    /// A mnemonic that takes an operand ends the token stream.
    OperandUnderflow,
}

// ---------------------------------------------------------------- the model

/// The words of each line of `s`, line by line.
pub open spec fn source_lines(s: Seq<char>) -> Seq<Seq<Seq<char>>> {
    lines(s).map_values(|l: Seq<char>| words(l))
}

/// The `k`-th word of a line, or the empty text where the line is shorter.
pub open spec fn slot(w: Seq<Seq<char>>, k: int) -> Seq<char> {
    if 0 <= k < w.len() {
        w[k]
    } else {
        Seq::empty()
    }
}

/// A line `label DAT [value]`.
pub open spec fn is_data_line(w: Seq<Seq<char>>) -> bool {
    is_dat(slot(w, 1))
}

/// A line `label MNEMONIC [operand]` with a label.
pub open spec fn is_code_line(w: Seq<Seq<char>>) -> bool {
    mnemonic_of(slot(w, 1)) is Some && slot(w, 0).len() > 0
}

/// The value of a data line: its third word read as an integer, or zero
/// where it has none.
pub open spec fn data_value(w: Seq<Seq<char>>) -> Option<i32> {
    if slot(w, 2).len() == 0 {
        Some(0)
    } else {
        parse_i32(slot(w, 2))
    }
}

/// Each data line's label bound to the line's address; a later line wins.
pub open spec fn data_labels(ls: Seq<Seq<Seq<char>>>) -> Map<Seq<char>, u8>
    decreases ls.len(),
{
    if ls.len() == 0 {
        Map::empty()
    } else {
        let m = data_labels(ls.drop_last());
        if is_data_line(ls.last()) {
            m.insert(slot(ls.last(), 0), (ls.len() - 1) as u8)
        } else {
            m
        }
    }
}

/// Each labelled instruction line's label bound to the line's address; a
/// later line wins.
pub open spec fn cell_labels(ls: Seq<Seq<Seq<char>>>) -> Map<Seq<char>, u8>
    decreases ls.len(),
{
    if ls.len() == 0 {
        Map::empty()
    } else {
        let m = cell_labels(ls.drop_last());
        if is_code_line(ls.last()) {
            m.insert(slot(ls.last(), 0), (ls.len() - 1) as u8)
        } else {
            m
        }
    }
}

/// The address of each data line bound to its value.
pub open spec fn initial_values(ls: Seq<Seq<Seq<char>>>) -> Map<u8, i32>
    decreases ls.len(),
{
    if ls.len() == 0 {
        Map::empty()
    } else {
        let m = initial_values(ls.drop_last());
        if is_data_line(ls.last()) && data_value(ls.last()) is Some {
            m.insert((ls.len() - 1) as u8, data_value(ls.last()).unwrap())
        } else {
            m
        }
    }
}

/// Every data line has a readable value.
pub open spec fn data_values_valid(ls: Seq<Seq<Seq<char>>>) -> bool {
    forall|i: int| 0 <= i < ls.len() && is_data_line(#[trigger] ls[i]) ==> data_value(ls[i]) is Some
}

/// Why label binding fails on `ls`, if it does.
pub open spec fn resolve_error(ls: Seq<Seq<Seq<char>>>) -> Option<CompileError> {
    if ls.len() > MEMORY_SIZE {
        Some(CompileError::TooManyLines)
    } else if !data_values_valid(ls) {
        Some(CompileError::ParseError)
    } else {
        None
    }
}

/// What the `k`-th word `t` of a line becomes: a leading instruction label is
/// dropped, a later word naming a label becomes its address (data labels
/// first), and any other word stays.
pub open spec fn substitute_word(
    t: Seq<char>,
    k: int,
    data: Map<Seq<char>, u8>,
    cells: Map<Seq<char>, u8>,
) -> Seq<Seq<char>> {
    if k == 0 {
        if cells.contains_key(t) {
            seq![]
        } else {
            seq![t]
        }
    } else if data.contains_key(t) {
        seq![decimal(data[t])]
    } else if cells.contains_key(t) {
        seq![decimal(cells[t])]
    } else {
        seq![t]
    }
}

/// The tokens that the words `w` of one line become.
pub open spec fn substitute_line(
    w: Seq<Seq<char>>,
    data: Map<Seq<char>, u8>,
    cells: Map<Seq<char>, u8>,
) -> Seq<Seq<char>>
    decreases w.len(),
{
    if w.len() == 0 {
        seq![]
    } else {
        substitute_line(w.drop_last(), data, cells) + substitute_word(
            w.last(),
            w.len() - 1,
            data,
            cells,
        )
    }
}

/// The tokens of all lines, in line order.
pub open spec fn substitute_lines(
    ls: Seq<Seq<Seq<char>>>,
    data: Map<Seq<char>, u8>,
    cells: Map<Seq<char>, u8>,
) -> Seq<Seq<char>>
    decreases ls.len(),
{
    if ls.len() == 0 {
        seq![]
    } else {
        substitute_lines(ls.drop_last(), data, cells) + substitute_line(ls.last(), data, cells)
    }
}

pub open spec fn takes_operand(m: Mnemonic) -> bool {
    !(m is Inp || m is Out || m is Hlt)
}

/// The instruction of a mnemonic that takes no operand.
pub open spec fn bare_instruction(m: Mnemonic) -> Instruction {
    match m {
        Mnemonic::Inp => Instruction::Input,
        Mnemonic::Out => Instruction::Output,
        _ => Instruction::Halt,
    }
}

/// The instruction of a mnemonic with its operand token `t`, where `t` reads
/// as what the mnemonic needs: a signed integer for `ADD` and `SUB`, an
/// address for the others.
pub open spec fn operand_instruction(m: Mnemonic, t: Seq<char>) -> Option<Instruction> {
    match m {
        Mnemonic::Add => match parse_i32(t) {
            Some(v) => Some(Instruction::Add(v)),
            None => None,
        },
        Mnemonic::Sub => match parse_i32(t) {
            Some(v) => Some(Instruction::Sub(v)),
            None => None,
        },
        _ => match parse_address(t) {
            Some(a) => Some(
                match m {
                    Mnemonic::Sta => Instruction::Store(a),
                    Mnemonic::Lda => Instruction::Load(a),
                    Mnemonic::Bra => Instruction::Branch(a),
                    Mnemonic::Brz => Instruction::BranchIfZero(a),
                    _ => Instruction::BranchIfPositive(a),
                },
            ),
            None => None,
        },
    }
}

/// `prefix` before the instructions of `r`, or the error of `r`.
pub open spec fn after(
    prefix: Seq<Instruction>,
    r: Result<Seq<Instruction>, CompileError>,
) -> Result<Seq<Instruction>, CompileError> {
    match r {
        Ok(s) => Ok(prefix + s),
        Err(e) => Err(e),
    }
}

/// The instructions of the tokens `ts` from position `i` on. A mnemonic that
/// takes an operand consumes the next token; a token that is no mnemonic is
/// skipped.
pub open spec fn decode_from(ts: Seq<Seq<char>>, i: int) -> Result<
    Seq<Instruction>,
    CompileError,
>
    decreases ts.len() - i,
{
    if i < 0 || i >= ts.len() {
        Ok(seq![])
    } else {
        match mnemonic_of(ts[i]) {
            Some(m) => if takes_operand(m) {
                if i + 1 >= ts.len() {
                    Err(CompileError::OperandUnderflow)
                } else {
                    match operand_instruction(m, ts[i + 1]) {
                        Some(ins) => after(seq![ins], decode_from(ts, i + 2)),
                        None => Err(CompileError::ParseError),
                    }
                }
            } else {
                after(seq![bare_instruction(m)], decode_from(ts, i + 1))
            },
            None => decode_from(ts, i + 1),
        }
    }
}

/// The instructions of the token stream `ts`.
pub open spec fn decode(ts: Seq<Seq<char>>) -> Result<Seq<Instruction>, CompileError> {
    decode_from(ts, 0)
}

/// The memory image: instruction `a`'s word at address `a`, zero past the
/// last instruction, and each data value over whatever stood at its address.
/// Where there are more instructions than cells, the image is all zeros.
pub open spec fn memory_image(ins: Seq<Instruction>, values: Map<u8, i32>) -> Seq<i32> {
    Seq::new(
        MEMORY_SIZE as nat,
        |a: int|
            if ins.len() > MEMORY_SIZE {
                0
            } else if values.contains_key(a as u8) {
                values[a as u8]
            } else if a < ins.len() {
                word_of(ins[a])
            } else {
                0
            },
    )
}

/// What assembling the source text `s` gives.
pub open spec fn compiled(s: Seq<char>) -> Result<Seq<i32>, CompileError> {
    let ls = source_lines(s);
    match resolve_error(ls) {
        Some(e) => Err(e),
        None => match decode(substitute_lines(ls, data_labels(ls), cell_labels(ls))) {
            Ok(ins) => Ok(memory_image(ins, initial_values(ls))),
            Err(e) => Err(e),
        },
    }
}

// ---------------------------------------------------------------- the stages

/// Relies on rayon's `par_iter().map(..).collect()` over a slice: the
/// iterator is indexed, so the collected vector holds one result per line, in
/// the lines' order.
#[verifier::external_body]
fn words_of_lines(ls: &Vec<Vec<char>>) -> (r: Vec<Vec<Vec<char>>>)
    ensures
        r.deep_view() == ls.deep_view().map_values(|l: Seq<char>| words(l)),
{
    ls.par_iter().map(|l| split_words(l)).collect()
}

/// Splits source text into lines and each line into its words.
pub fn normalize(source: &str) -> (r: Vec<Vec<Vec<char>>>)
    ensures
        r.deep_view() == source_lines(source@),
{
    let chars = chars_of(source);
    let ls = split_lines(&chars);
    words_of_lines(&ls)
}

/// The label tables and the initial memory values of a program.
pub struct Resolution {
    pub data_labels: LabelTable,
    pub cell_labels: LabelTable,
    pub initial_values: ValueTable,
}

impl Resolution {
    pub open spec fn data_map(&self) -> Map<Seq<char>, u8> {
        label_entries(self.data_labels)
    }

    pub open spec fn cell_map(&self) -> Map<Seq<char>, u8> {
        label_entries(self.cell_labels)
    }

    pub open spec fn value_map(&self) -> Map<u8, i32> {
        value_entries(self.initial_values)
    }

    /// The initial value of the cell at `address`, where a data line sets one.
    pub fn initial_value(&self, address: u8) -> (r: Option<i32>)
        ensures
            r == (if self.value_map().contains_key(address) {
                Some(self.value_map()[address])
            } else {
                None
            }),
    {
        self.initial_values.get(address)
    }

    /// The address of the data label `label`.
    pub fn data_address(&self, label: &str) -> (r: Option<u8>)
        ensures
            r == (if self.data_map().contains_key(label@) {
                Some(self.data_map()[label@])
            } else {
                None
            }),
    {
        self.data_labels.get(&chars_of(label))
    }

    /// The address of the instruction label `label`.
    pub fn cell_address(&self, label: &str) -> (r: Option<u8>)
        ensures
            r == (if self.cell_map().contains_key(label@) {
                Some(self.cell_map()[label@])
            } else {
                None
            }),
    {
        self.cell_labels.get(&chars_of(label))
    }
}

/// Binds labels to line addresses and reads the values of data lines.
pub fn resolve_labels(lines: &Vec<Vec<Vec<char>>>) -> (r: Result<Resolution, CompileError>)
    ensures
        match r {
            Ok(res) => {
                &&& resolve_error(lines.deep_view()) is None
                &&& res.data_map() == data_labels(lines.deep_view())
                &&& res.cell_map() == cell_labels(lines.deep_view())
                &&& res.value_map() == initial_values(lines.deep_view())
            },
            Err(e) => resolve_error(lines.deep_view()) == Some(e),
        },
{
    let ghost ls = lines.deep_view();
    if lines.len() > MEMORY_SIZE {
        return Err(CompileError::TooManyLines);
    }
    let mut data = LabelTable::new();
    let mut cells = LabelTable::new();
    let mut values = ValueTable::new();
    let mut i: usize = 0;
    while i < lines.len()
        invariant
            i <= lines.len() <= MEMORY_SIZE,
            ls == lines.deep_view(),
            label_entries(data) == data_labels(ls.take(i as int)),
            label_entries(cells) == cell_labels(ls.take(i as int)),
            value_entries(values) == initial_values(ls.take(i as int)),
            data_values_valid(ls.take(i as int)),
        decreases lines.len() - i,
    {
        let w = &lines[i];
        let ghost wv = ls[i as int];
        proof {
            assert(ls.take(i + 1).drop_last() =~= ls.take(i as int));
            assert(ls.take(i + 1).last() == wv);
            assert(wv =~= w.deep_view());
            if w.len() > 0 {
                assert(w[0].deep_view() =~= w[0]@);
            }
            if w.len() > 1 {
                assert(w[1].deep_view() =~= w[1]@);
            }
            if w.len() > 2 {
                assert(w[2].deep_view() =~= w[2]@);
            }
        }
        if w.len() > 1 && is_dat_word(&w[1]) {
            let value = if w.len() > 2 && w[2].len() > 0 {
                match read_i32(&w[2]) {
                    Some(v) => v,
                    None => {
                        assert(is_data_line(ls[i as int]) && data_value(ls[i as int]) is None);
                        return Err(CompileError::ParseError);
                    },
                }
            } else {
                0
            };
            data.insert(&w[0], i as u8);
            values.insert(i as u8, value);
        } else if w.len() > 1 && w[0].len() > 0 {
            match lookup_mnemonic(&w[1]) {
                Some(_) => {
                    cells.insert(&w[0], i as u8);
                },
                None => {},
            }
        }
        proof {
            assert forall|j: int|
                0 <= j < i + 1 && is_data_line(#[trigger] ls.take(i + 1)[j]) implies data_value(
                ls.take(i + 1)[j],
            ) is Some by {
                if j < i {
                    assert(ls.take(i as int)[j] == ls.take(i + 1)[j]);
                }
            }
        }
        i += 1;
    }
    assert(ls.take(lines.len() as int) =~= ls);
    Ok(Resolution { data_labels: data, cell_labels: cells, initial_values: values })
}

fn copy_chars(t: &Vec<char>) -> (r: Vec<char>)
    ensures
        r@ == t@,
{
    let mut r: Vec<char> = Vec::new();
    let mut i: usize = 0;
    while i < t.len()
        invariant
            i <= t.len(),
            r@ == t@.take(i as int),
        decreases t.len() - i,
    {
        r.push(t[i]);
        i += 1;
        assert(r@ =~= t@.take(i as int));
    }
    assert(t@.take(t.len() as int) =~= t@);
    r
}

/// The tokens that one line's words become.
fn substitute_line_tokens(w: &Vec<Vec<char>>, res: &Resolution) -> (r: Vec<Vec<char>>)
    ensures
        r.deep_view() == substitute_line(w.deep_view(), res.data_map(), res.cell_map()),
{
    let ghost wv = w.deep_view();
    let ghost data = res.data_map();
    let ghost cells = res.cell_map();
    let mut out: Vec<Vec<char>> = Vec::new();
    let mut k: usize = 0;
    while k < w.len()
        invariant
            k <= w.len(),
            wv == w.deep_view(),
            data == res.data_map(),
            cells == res.cell_map(),
            out.deep_view() == substitute_line(wv.take(k as int), data, cells),
        decreases w.len() - k,
    {
        let t = &w[k];
        proof {
            assert(wv.take(k + 1).drop_last() =~= wv.take(k as int));
            assert(t.deep_view() =~= t@);
            assert(wv.take(k + 1).last() == t@);
        }
        let ghost before = out.deep_view();
        let ghost added = substitute_word(t@, k as int, data, cells);
        if k == 0 {
            match res.cell_labels.get(t) {
                Some(_) => {
                    assert(added =~= seq![]);
                    assert(before + added =~= before);
                },
                None => {
                    let c = copy_chars(t);
                    let ghost cv = c@;
                    assert(c.deep_view() =~= cv);
                    out.push(c);
                    assert(out.deep_view() =~= before + added);
                },
            }
        } else {
            let c = match res.data_labels.get(t) {
                Some(a) => write_decimal(a),
                None => match res.cell_labels.get(t) {
                    Some(a) => write_decimal(a),
                    None => copy_chars(t),
                },
            };
            let ghost cv = c@;
            assert(c.deep_view() =~= cv);
            out.push(c);
            assert(out.deep_view() =~= before + added);
        }
        k += 1;
    }
    assert(wv.take(w.len() as int) =~= wv);
    out
}

/// Relies on rayon's `par_iter().map(..).collect()` over a slice: the
/// iterator is indexed, so the collected vector holds one result per line, in
/// the lines' order.
#[verifier::external_body]
fn tokens_of_lines(ls: &Vec<Vec<Vec<char>>>, res: &Resolution) -> (r: Vec<Vec<Vec<char>>>)
    ensures
        r.deep_view() == ls.deep_view().map_values(
            |w: Seq<Seq<char>>| substitute_line(w, res.data_map(), res.cell_map()),
        ),
{
    ls.par_iter().map(|w| substitute_line_tokens(w, res)).collect()
}

/// Replaces label references by their addresses, line by line, and joins
/// the lines' tokens into one stream.
pub fn substitute_symbols(lines: &Vec<Vec<Vec<char>>>, res: &Resolution) -> (r: Vec<Vec<char>>)
    ensures
        r.deep_view() == substitute_lines(lines.deep_view(), res.data_map(), res.cell_map()),
{
    let ghost ls = lines.deep_view();
    let ghost data = res.data_map();
    let ghost cells = res.cell_map();
    let parts = tokens_of_lines(lines, res);
    assert(parts.deep_view() =~= ls.map_values(
        |w: Seq<Seq<char>>| substitute_line(w, data, cells),
    ));
    let mut out: Vec<Vec<char>> = Vec::new();
    let mut i: usize = 0;
    while i < parts.len()
        invariant
            i <= parts.len() == ls.len(),
            ls == lines.deep_view(),
            parts.deep_view() == ls.map_values(
                |w: Seq<Seq<char>>| substitute_line(w, data, cells),
            ),
            out.deep_view() == substitute_lines(ls.take(i as int), data, cells),
        decreases parts.len() - i,
    {
        let part = &parts[i];
        let ghost start = out.deep_view();
        assert(parts.deep_view()[i as int] == part.deep_view());
        assert(part.deep_view() == substitute_line(ls[i as int], data, cells));
        let mut k: usize = 0;
        while k < part.len()
            invariant
                k <= part.len(),
                out.deep_view() == start + part.deep_view().take(k as int),
            decreases part.len() - k,
        {
            let c = copy_chars(&part[k]);
            let ghost before = out.deep_view();
            let ghost cv = c@;
            assert(c.deep_view() =~= cv);
            assert(part[k as int].deep_view() =~= part[k as int]@);
            out.push(c);
            assert(out.deep_view() =~= before.push(cv));
            k += 1;
            assert(out.deep_view() =~= start + part.deep_view().take(k as int));
        }
        proof {
            assert(part.deep_view().take(part.len() as int) =~= part.deep_view());
            assert(ls.take(i + 1).drop_last() =~= ls.take(i as int));
            assert(ls.take(i + 1).last() == ls[i as int]);
        }
        i += 1;
    }
    assert(ls.take(lines.len() as int) =~= ls);
    out
}

/// Decodes a stream of tokens into instructions.
pub fn decode_instructions(tokens: &Vec<Vec<char>>) -> (r: Result<Vec<Instruction>, CompileError>)
    ensures
        match r {
            Ok(ins) => decode(tokens.deep_view()) is Ok && decode(tokens.deep_view())->Ok_0 == ins@,
            Err(e) => decode(tokens.deep_view()) is Err && decode(tokens.deep_view())->Err_0 == e,
        },
{
    let ghost ts = tokens.deep_view();
    let mut out: Vec<Instruction> = Vec::new();
    let mut i: usize = 0;
    while i < tokens.len()
        invariant
            i <= tokens.len() + 1,
            ts == tokens.deep_view(),
            decode_from(ts, 0) == after(out@, decode_from(ts, i as int)),
        decreases tokens.len() + 1 - i,
    {
        let t = &tokens[i];
        assert(t.deep_view() =~= t@);
        let ghost before = out@;
        match lookup_mnemonic(t) {
            Some(m) => {
                match m {
                    Mnemonic::Inp | Mnemonic::Out | Mnemonic::Hlt => {
                        let ins = match m {
                            Mnemonic::Inp => Instruction::Input,
                            Mnemonic::Out => Instruction::Output,
                            _ => Instruction::Halt,
                        };
                        out.push(ins);
                        proof {
                            assert(before.push(ins) =~= before + seq![ins]);
                            lemma_after_assoc(before, seq![ins], decode_from(ts, i + 1));
                        }
                        i += 1;
                    },
                    _ => {
                        if i + 1 >= tokens.len() {
                            return Err(CompileError::OperandUnderflow);
                        }
                        let operand = &tokens[i + 1];
                        assert(operand.deep_view() =~= operand@);
                        let decoded = match m {
                            Mnemonic::Add => match read_i32(operand) {
                                Some(v) => Some(Instruction::Add(v)),
                                None => None,
                            },
                            Mnemonic::Sub => match read_i32(operand) {
                                Some(v) => Some(Instruction::Sub(v)),
                                None => None,
                            },
                            _ => match read_address(operand) {
                                Some(a) => Some(
                                    match m {
                                        Mnemonic::Sta => Instruction::Store(a),
                                        Mnemonic::Lda => Instruction::Load(a),
                                        Mnemonic::Bra => Instruction::Branch(a),
                                        Mnemonic::Brz => Instruction::BranchIfZero(a),
                                        _ => Instruction::BranchIfPositive(a),
                                    },
                                ),
                                None => None,
                            },
                        };
                        assert(decoded == operand_instruction(m, ts[i + 1]));
                        match decoded {
                            Some(ins) => {
                                out.push(ins);
                                proof {
                                    assert(before.push(ins) =~= before + seq![ins]);
                                    lemma_after_assoc(before, seq![ins], decode_from(ts, i + 2));
                                }
                                i += 2;
                            },
                            None => {
                                return Err(CompileError::ParseError);
                            },
                        }
                    },
                }
            },
            None => {
                i += 1;
            },
        }
    }
    assert(decode_from(ts, i as int) == Ok::<Seq<Instruction>, CompileError>(seq![]));
    assert(out@ + seq![] =~= out@);
    Ok(out)
}

proof fn lemma_after_assoc(
    a: Seq<Instruction>,
    b: Seq<Instruction>,
    r: Result<Seq<Instruction>, CompileError>,
)
    ensures
        after(a, after(b, r)) == after(a + b, r),
{
    if let Ok(s) = r {
        assert(a + (b + s) =~= (a + b) + s);
    }
}

/// Encodes instructions into a memory image and lays the data values over it.
pub fn encode_machine_code(ins: &Vec<Instruction>, values: &ValueTable) -> (r: [i32; 100])
    ensures
        r@ == memory_image(ins@, value_entries(*values)),
{
    let mut image: [i32; 100] = [0i32; 100];
    if ins.len() > MEMORY_SIZE {
        assert(image@ =~= memory_image(ins@, value_entries(*values)));
        return image;
    }
    let mut a: usize = 0;
    while a < MEMORY_SIZE
        invariant
            a <= MEMORY_SIZE,
            ins.len() <= MEMORY_SIZE,
            forall|j: int| 0 <= j < a ==> image@[j] == memory_image(ins@, value_entries(*values))[j],
            forall|j: int| a <= j < MEMORY_SIZE ==> image@[j] == 0,
        decreases MEMORY_SIZE - a,
    {
        let w = match values.get(a as u8) {
            Some(v) => v,
            None => if a < ins.len() {
                ins[a].word()
            } else {
                0
            },
        };
        image[a] = w;
        a += 1;
    }
    assert(image@ =~= memory_image(ins@, value_entries(*values)));
    image
}

/// Assembles source text into a memory image of one hundred words.
pub fn compile(source: &str) -> (r: Result<[i32; 100], CompileError>)
    ensures
        match r {
            Ok(image) => compiled(source@) is Ok && compiled(source@)->Ok_0 == image@,
            Err(e) => compiled(source@) is Err && compiled(source@)->Err_0 == e,
        },
        r is Ok ==> r->Ok_0@.len() == MEMORY_SIZE,
{
    let lines = normalize(source);
    let res = resolve_labels(&lines)?;
    let tokens = substitute_symbols(&lines, &res);
    let ins = decode_instructions(&tokens)?;
    Ok(encode_machine_code(&ins, &res.initial_values))
}

// ---------------------------------------------------------------- laws

/// Every program that assembles gives an image of exactly one hundred words.
pub proof fn lemma_image_has_memory_size(s: Seq<char>)
    requires
        compiled(s) is Ok,
    ensures
        compiled(s)->Ok_0.len() == MEMORY_SIZE,
{
}

/// Assembling depends on the source text alone: the same text gives the same
/// result.
pub proof fn lemma_compile_deterministic(s1: Seq<char>, s2: Seq<char>)
    requires
        s1 == s2,
    ensures
        compiled(s1) == compiled(s2),
{
}

/// Running the stages one after another, each on what the previous one gave,
/// yields the image that assembling the whole text gives.
pub proof fn lemma_stages_compose(s: Seq<char>)
    requires
        compiled(s) is Ok,
    ensures
        ({
            let ls = source_lines(s);
            let ts = substitute_lines(ls, data_labels(ls), cell_labels(ls));
            &&& resolve_error(ls) is None
            &&& decode(ts) is Ok
            &&& compiled(s)->Ok_0 == memory_image(decode(ts)->Ok_0, initial_values(ls))
        }),
{
}

/// A cell that a data line sets holds that value, whatever instruction was
/// encoded at its address.
pub proof fn lemma_data_value_wins(ins: Seq<Instruction>, values: Map<u8, i32>, a: u8)
    requires
        ins.len() <= MEMORY_SIZE,
        a < MEMORY_SIZE,
        values.contains_key(a),
    ensures
        memory_image(ins, values)[a as int] == values[a],
{
}

/// A word after the first of its line that names no label passes into the
/// token stream as it stands.
pub proof fn lemma_unknown_word_passes_through(
    t: Seq<char>,
    k: int,
    data: Map<Seq<char>, u8>,
    cells: Map<Seq<char>, u8>,
)
    requires
        k > 0,
        !data.contains_key(t),
        !cells.contains_key(t),
    ensures
        substitute_word(t, k, data, cells) == seq![t],
{
}

/// A mnemonic that needs an operand, followed by a token that is neither a
/// digit nor a sign at its start (such as a label that no line defines),
/// makes decoding fail.
pub proof fn lemma_non_numeric_operand_fails(ts: Seq<Seq<char>>, i: int)
    requires
        0 <= i,
        i + 1 < ts.len(),
        mnemonic_of(ts[i]) is Some,
        takes_operand(mnemonic_of(ts[i])->Some_0),
        ts[i + 1].len() > 0,
        !crate::text::is_digit(ts[i + 1][0]),
        ts[i + 1][0] != '+',
        ts[i + 1][0] != '-',
    ensures
        decode_from(ts, i) is Err,
        decode_from(ts, i)->Err_0 == CompileError::ParseError,
{
    let t = ts[i + 1];
    assert(!crate::text::all_digits(t));
}

} // verus!
