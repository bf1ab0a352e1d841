//! Control flow obfuscation.
//!
//! A sequence of statements is turned into a table in which every statement
//! has a key of its own, and a loop that holds a key, runs the statement of
//! that key and moves on to the key of the next one. The keys come from a
//! chain of hashes over the text of the statements, so that the order of the
//! statements does not show in the table.

use crate::murmur3::{murmur3, spec_murmur3};
use vstd::prelude::*;
use vstd::string::*;

verus! {

/// The key and the xor value of the chain after `done` statements: the
/// starting pair for none; from there on the key is the key before xor-ed
/// with the xor value before, and the xor value is the hash of the
/// statement's text under the new key.
pub open spec fn spec_chain(key: u32, xor: u32, texts: Seq<Seq<u8>>, done: nat) -> (u32, u32)
    decreases done,
{
    if done == 0 {
        (key, xor)
    } else {
        let (k, x) = spec_chain(key, xor, texts, (done - 1) as nat);
        (k ^ x, spec_murmur3(texts[done - 1], k ^ x))
    }
}

/// The key at which statement `i` is entered.
pub open spec fn spec_entry_key(key: u32, xor: u32, texts: Seq<Seq<u8>>, i: int) -> u32 {
    spec_chain(key, xor, texts, (i + 1) as nat).0
}

/// The key that ends the loop: the key after the last statement, xor-ed
/// with its xor value.
pub open spec fn spec_exit(key: u32, xor: u32, texts: Seq<Seq<u8>>) -> u32 {
    let (k, x) = spec_chain(key, xor, texts, texts.len());
    k ^ x
}

/// The texts of the statements, as bytes.
pub open spec fn spec_texts(stmts: Seq<&'static str>) -> Seq<Seq<u8>> {
    Seq::new(stmts.len(), |i: int| stmts[i].spec_bytes())
}

/// The table for the statements `texts`: entry `i` holds what the chain
/// gives after `i + 1` statements.
pub open spec fn spec_table(key: u32, xor: u32, texts: Seq<Seq<u8>>) -> Seq<(u32, u32)> {
    Seq::new(texts.len(), |i: int| spec_chain(key, xor, texts, (i + 1) as nat))
}

/// The keys and xor values of a table, without the statements.
pub open spec fn spec_pairs(table: Seq<(&'static str, u32, u32)>) -> Seq<(u32, u32)> {
    Seq::new(table.len(), |i: int| (table[i].1, table[i].2))
}

/// Generates the keys and xor values for a sequence of statements.
pub fn generate<const LEN: usize>(key: u32, xor: u32, stmts: &[&'static str; LEN]) -> (result: [(
    &'static str,
    u32,
    u32,
); LEN])
    ensures
        spec_pairs(result@) == spec_table(key, xor, spec_texts(stmts@)),
        forall|i: int| 0 <= i < LEN ==> (#[trigger] result@[i]).0 == stmts@[i],
{
    let ghost texts = spec_texts(stmts@);
    let mut key: u32 = key;
    let mut xor: u32 = xor;
    let ghost key0 = key;
    let ghost xor0 = xor;
    let mut result = [("", 0u32, 0u32);LEN];
    let mut i: usize = 0;
    while i < LEN
        invariant
            i <= LEN,
            texts == spec_texts(stmts@),
            (key, xor) == spec_chain(key0, xor0, texts, i as nat),
            forall|j: int|
                0 <= j < i ==> (#[trigger] result@[j]).0 == stmts@[j] && (result@[j].1, result@[j].2)
                    == spec_chain(key0, xor0, texts, (j + 1) as nat),
        decreases LEN - i,
    {
        key ^= xor;
        xor = murmur3(stmts[i].as_bytes(), key);
        result[i] = (stmts[i], key, xor);
        i += 1;
    }
    assert(spec_pairs(result@) =~= spec_table(key0, xor0, texts));
    result
}

/// The key that ends the loop over a table that starts from `key` and
/// `xor`: the last entry's key xor-ed with its xor value, and the
/// starting pair xor-ed where the table is empty.
pub open spec fn spec_exit_of(key: u32, xor: u32, pairs: Seq<(u32, u32)>) -> u32 {
    if pairs.len() == 0 {
        key ^ xor
    } else {
        pairs.last().0 ^ pairs.last().1
    }
}

/// The key that ends the dispatch loop over `table`, which was generated
/// from `key` and `xor`.
pub fn exit<const LEN: usize>(key: u32, xor: u32, table: &[(&'static str, u32, u32); LEN]) -> (code:
    u32)
    ensures
        code == spec_exit_of(key, xor, spec_pairs(table@)),
{
    if LEN == 0 {
        key ^ xor
    } else {
        table[LEN - 1].1 ^ table[LEN - 1].2
    }
}

/// What the dispatch loop does in one turn.
#[derive(Clone, Copy, Debug, PartialEq, Eq, Structural)]
pub enum Step {
    /// Run the statement with this index.
    Run(usize),
    /// Run nothing.
    Skip,
    /// Leave the loop.
    Exit,
}

/// The state of the dispatch loop: the current key and the xor value that
/// leads to the next key.
#[derive(Clone, Copy, Debug, PartialEq, Eq, Structural)]
pub struct Cursor {
    pub key: u32,
    pub xor: u32,
}

/// The first entry from `from` on whose key is `key`.
pub open spec fn spec_find(table: Seq<(u32, u32)>, key: u32, from: int) -> Option<int>
    decreases table.len() - from,
{
    if from < 0 || from >= table.len() {
        None
    } else if table[from].0 == key {
        Some(from)
    } else {
        spec_find(table, key, from + 1)
    }
}

/// One turn of the dispatch loop. The first entry with the current key
/// has its statement run and gives the new xor value; with no such entry
/// the loop ends at the exit key, and runs nothing at any other key. Unless
/// the loop ends, the key is then xor-ed with the xor value.
pub open spec fn spec_step(table: Seq<(u32, u32)>, exit: u32, at: Cursor) -> (Step, Cursor) {
    match spec_find(table, at.key, 0) {
        Some(i) => (Step::Run(i as usize), Cursor { key: at.key ^ table[i].1, xor: table[i].1 }),
        None => if at.key == exit {
            (Step::Exit, at)
        } else {
            (Step::Skip, Cursor { key: at.key ^ at.xor, xor: at.xor })
        },
    }
}

/// The statements that the dispatch loop runs from `at` on, in the order
/// in which it runs them, if it leaves within `turns` turns.
pub open spec fn spec_trace(table: Seq<(u32, u32)>, exit: u32, at: Cursor, turns: nat) -> Option<
    Seq<int>,
>
    decreases turns,
{
    if turns == 0 {
        None
    } else {
        let (step, next) = spec_step(table, exit, at);
        match step {
            Step::Exit => Some(Seq::empty()),
            Step::Skip => spec_trace(table, exit, next, (turns - 1) as nat),
            Step::Run(i) => match spec_trace(table, exit, next, (turns - 1) as nat) {
                Some(rest) => Some(seq![i as int] + rest),
                None => None,
            },
        }
    }
}

/// No key of the chain is met twice: the entry keys differ from each other,
/// and the starting key and the exit key are not among them; where there
/// are statements, the starting key is not the exit key either.
pub open spec fn spec_collision_free(key: u32, xor: u32, texts: Seq<Seq<u8>>) -> bool {
    &&& forall|i: int, j: int|
        0 <= i < j < texts.len() ==> spec_entry_key(key, xor, texts, i) != spec_entry_key(
            key,
            xor,
            texts,
            j,
        )
    &&& forall|i: int|
        0 <= i < texts.len() ==> spec_entry_key(key, xor, texts, i) != spec_exit(key, xor, texts)
    &&& forall|i: int| 0 <= i < texts.len() ==> spec_entry_key(key, xor, texts, i) != key
    &&& texts.len() > 0 ==> key != spec_exit(key, xor, texts)
}

/// The state in which the dispatch loop starts.
pub fn start(key: u32, xor: u32) -> (cursor: Cursor)
    ensures
        cursor == (Cursor { key, xor }),
{
    Cursor { key, xor }
}

/// Takes one turn of the dispatch loop: says what to do, and moves the
/// cursor on.
pub fn step<const LEN: usize>(
    table: &[(&'static str, u32, u32); LEN],
    exit: u32,
    cursor: &mut Cursor,
) -> (step: Step)
    ensures
        (step, *final(cursor)) == spec_step(spec_pairs(table@), exit, *old(cursor)),
{
    let ghost pairs = spec_pairs(table@);
    let key: u32 = cursor.key;
    let mut i: usize = 0;
    while i < LEN
        invariant
            i <= LEN,
            pairs == spec_pairs(table@),
            *cursor == *old(cursor),
            key == cursor.key,
            spec_find(pairs, key, 0) == spec_find(pairs, key, i as int),
        decreases LEN - i,
    {
        if table[i].1 == key {
            cursor.xor = table[i].2;
            cursor.key = key ^ table[i].2;
            return Step::Run(i);
        }
        i += 1;
    }
    if key == exit {
        return Step::Exit;
    }
    cursor.key = key ^ cursor.xor;
    Step::Skip
}

proof fn lemma_find_first(table: Seq<(u32, u32)>, key: u32, from: int, i: int)
    requires
        0 <= from <= i < table.len(),
        table[i].0 == key,
        forall|j: int| from <= j < i ==> table[j].0 != key,
    ensures
        spec_find(table, key, from) == Some(i),
    decreases i - from,
{
    if from < i {
        lemma_find_first(table, key, from + 1, i);
    }
}

proof fn lemma_find_none(table: Seq<(u32, u32)>, key: u32, from: int)
    requires
        0 <= from,
        forall|j: int| from <= j < table.len() ==> table[j].0 != key,
    ensures
        spec_find(table, key, from) is None,
    decreases table.len() - from,
{
    if from < table.len() {
        lemma_find_none(table, key, from + 1);
    }
}

/// Whether every entry leads to the next one, and the last one to `exit`,
/// by xor-ing its key with its xor value; and no entry has the key of
/// another entry or the key `exit`.
spec fn spec_linked(table: Seq<(u32, u32)>, exit: u32) -> bool {
    &&& forall|i: int, j: int|
        0 <= i < j < table.len() ==> (#[trigger] table[i]).0 != (#[trigger] table[j]).0
    &&& forall|i: int| 0 <= i < table.len() ==> (#[trigger] table[i]).0 != exit
    &&& forall|i: int| 0 <= i < table.len() ==> #[trigger] spec_leads(table, exit, i)
}

/// Whether entry `i` leads to the key after it.
spec fn spec_leads(table: Seq<(u32, u32)>, exit: u32, i: int) -> bool {
    table[i].0 ^ table[i].1 == spec_key_at(table, exit, i + 1)
}

/// The key of entry `t`, and `exit` past the last entry.
spec fn spec_key_at(table: Seq<(u32, u32)>, exit: u32, t: int) -> u32 {
    if 0 <= t < table.len() {
        table[t].0
    } else {
        exit
    }
}

/// The indices from `t` up to `n`, in their order.
spec fn spec_from(t: int, n: int) -> Seq<int> {
    Seq::new((n - t) as nat, |j: int| t + j)
}

/// From the key of entry `t` on, or from the exit key past the last entry,
/// the loop runs the statements from `t` on in their order and leaves.
proof fn lemma_run_from(table: Seq<(u32, u32)>, exit: u32, t: int, any: u32, turns: nat)
    requires
        spec_linked(table, exit),
        0 <= t <= table.len() < usize::MAX,
        turns >= table.len() - t + 1,
    ensures
        spec_trace(table, exit, Cursor { key: spec_key_at(table, exit, t), xor: any }, turns)
            == Some(spec_from(t, table.len() as int)),
    decreases table.len() - t,
{
    let at = Cursor { key: spec_key_at(table, exit, t), xor: any };
    if t == table.len() {
        lemma_find_none(table, exit, 0);
        assert(spec_from(t, table.len() as int) =~= Seq::<int>::empty());
    } else {
        lemma_find_first(table, at.key, 0, t);
        let next = Cursor { key: at.key ^ table[t].1, xor: table[t].1 };
        assert(spec_step(table, exit, at) == (Step::Run(t as usize), next));
        assert(spec_leads(table, exit, t));
        lemma_run_from(table, exit, t + 1, next.xor, (turns - 1) as nat);
        assert(seq![t] + spec_from(t + 1, table.len() as int) =~= spec_from(
            t,
            table.len() as int,
        ));
    }
}

/// The table of a chain without collisions is linked.
proof fn lemma_table_linked(key: u32, xor: u32, texts: Seq<Seq<u8>>)
    requires
        spec_collision_free(key, xor, texts),
    ensures
        spec_linked(spec_table(key, xor, texts), spec_exit(key, xor, texts)),
        spec_key_at(spec_table(key, xor, texts), spec_exit(key, xor, texts), 0) == key ^ xor,
{
    let table = spec_table(key, xor, texts);
    let exit = spec_exit(key, xor, texts);
    assert forall|i: int| 0 <= i < table.len() implies (#[trigger] table[i]).0 == spec_entry_key(
        key,
        xor,
        texts,
        i,
    ) by {}
    assert forall|i: int| 0 <= i < table.len() implies #[trigger] spec_leads(table, exit, i) by {
        if i + 1 < table.len() {
            assert(table[i + 1] == spec_chain(key, xor, texts, (i + 2) as nat));
        }
    }
    reveal_with_fuel(spec_chain, 2);
}

/// The exit key read off a generated table is the exit key of the chain.
pub proof fn lemma_exit_of_table(key: u32, xor: u32, texts: Seq<Seq<u8>>)
    ensures
        spec_exit_of(key, xor, spec_table(key, xor, texts)) == spec_exit(key, xor, texts),
{
    let table = spec_table(key, xor, texts);
    if texts.len() > 0 {
        assert(table.last() == spec_chain(key, xor, texts, texts.len()));
    }
}

/// Where no key of the chain is met twice, the dispatch loop that starts
/// from the starting key runs every statement once, in the order in which
/// the statements were given, and then leaves: flattening keeps the order
/// of the statements.
pub proof fn lemma_dispatch_in_order(key: u32, xor: u32, texts: Seq<Seq<u8>>)
    requires
        spec_collision_free(key, xor, texts),
        texts.len() < usize::MAX,
    ensures
        spec_trace(
            spec_table(key, xor, texts),
            spec_exit(key, xor, texts),
            Cursor { key, xor },
            texts.len() + 2,
        ) == Some(Seq::new(texts.len(), |i: int| i)),
{
    let table = spec_table(key, xor, texts);
    let exit = spec_exit(key, xor, texts);
    let at = Cursor { key, xor };
    let turns = texts.len() + 2;
    lemma_table_linked(key, xor, texts);
    assert forall|j: int| 0 <= j < table.len() implies (#[trigger] table[j]).0 != key by {
        assert(table[j].0 == spec_entry_key(key, xor, texts, j));
    }
    lemma_find_none(table, key, 0);
    assert(spec_from(0, table.len() as int) =~= Seq::new(texts.len(), |i: int| i));
    if key == exit {
        lemma_run_from(table, exit, texts.len() as int, xor, turns);
    } else {
        let next = Cursor { key: key ^ xor, xor };
        assert(spec_step(table, exit, at) == (Step::Skip, next));
        lemma_run_from(table, exit, 0, xor, (turns - 1) as nat);
    }
}

} // verus!
