use obfstr::cfo::{exit, generate, start, step, Step};
use obfstr::{entropy, murmur3};

// Runs the statements through the dispatch loop; `body` runs the statement of an index.
fn obfstmt<const LEN: usize>(key: u32, stmts: &[&'static str; LEN], mut body: impl FnMut(usize)) {
    let xor = murmur3(b"XOR", key);
    let table = generate::<LEN>(key, xor, stmts);
    let exit = exit::<LEN>(key, xor, &table);
    let mut cursor = start(key, xor);
    loop {
        match step::<LEN>(&table, exit, &mut cursor) {
            Step::Run(i) => body(i),
            Step::Skip => (),
            Step::Exit => break,
        }
    }
}

#[test]
fn test_identical_stmt() {
    let mut i: u8 = 0;
    obfstmt::<4>(
        entropy("src/cfo.rs", 95, 2) as u32,
        &["i += 1", "i += 1", "i += 1", "i += 1"],
        |stmt| match stmt {
            0 => i += 1,
            1 => i += 1,
            2 => i += 1,
            3 => i += 1,
            _ => unreachable!(),
        },
    );
    obfstmt::<0>(entropy("src/cfo.rs", 101, 2) as u32, &[], |_| unreachable!());
    assert_eq!(i, 4);
}

#[test]
fn flattened_statements_run_in_order() {
    let mut i: i32 = 0;
    let mut order = Vec::new();
    obfstmt::<9>(
        entropy("examples/obfuscation.rs", 18, 2) as u32,
        &[
            "i = 5", "i *= 24", "i -= 10", "i += 8", "i *= 28", "i -= 18", "i += 1", "i *= 21",
            "i -= 11",
        ],
        |stmt| {
            order.push(stmt);
            match stmt {
                0 => i = 5,
                1 => i *= 24,
                2 => i -= 10,
                3 => i += 8,
                4 => i *= 28,
                5 => i -= 18,
                6 => i += 1,
                7 => i *= 21,
                8 => i -= 11,
                _ => unreachable!(),
            }
        },
    );
    assert_eq!(i, 69016);
    assert_eq!(order, vec![0, 1, 2, 3, 4, 5, 6, 7, 8]);
}

#[test]
fn doc_example_statements() {
    let mut tmp = 0;
    obfstmt::<4>(
        0x1357_9bdf,
        &["tmp = 2", "tmp *= 22", "tmp -= 12", "tmp /= 3"],
        |stmt| match stmt {
            0 => tmp = 2,
            1 => tmp *= 22,
            2 => tmp -= 12,
            3 => tmp /= 3,
            _ => unreachable!(),
        },
    );
    assert_eq!(tmp, 10);
}

#[test]
fn generate_chains_the_keys() {
    let key: u32 = 0x0102_0304;
    let xor: u32 = murmur3(b"XOR", key);
    let table = generate::<3>(key, xor, &["a = 1", "b = 2", "c = 3"]);
    let key0 = key ^ xor;
    let xor0 = murmur3(b"a = 1", key0);
    let key1 = key0 ^ xor0;
    let xor1 = murmur3(b"b = 2", key1);
    let key2 = key1 ^ xor1;
    let xor2 = murmur3(b"c = 3", key2);
    assert_eq!(
        table,
        [("a = 1", key0, xor0), ("b = 2", key1, xor1), ("c = 3", key2, xor2)]
    );
    assert_eq!(exit::<3>(key, xor, &table), key2 ^ xor2);
}

#[test]
fn empty_table_exits_at_once() {
    let key: u32 = 42;
    let xor: u32 = murmur3(b"XOR", key);
    let table = generate::<0>(key, xor, &[]);
    let code = exit::<0>(key, xor, &table);
    assert_eq!(code, key ^ xor);
    let mut cursor = start(key, xor);
    assert_eq!(step::<0>(&table, code, &mut cursor), Step::Skip);
    assert_eq!(cursor.key, key ^ xor);
    assert_eq!(step::<0>(&table, code, &mut cursor), Step::Exit);
    // Leaving does not move the cursor
    assert_eq!(cursor.key, key ^ xor);
    assert_eq!(cursor.xor, xor);
}

#[test]
fn step_takes_the_first_entry_with_the_key() {
    let table = [("first", 7u32, 1u32), ("second", 7u32, 2u32), ("third", 9u32, 3u32)];
    let mut cursor = start(7, 0x100);
    assert_eq!(step::<3>(&table, 0, &mut cursor), Step::Run(0));
    assert_eq!((cursor.key, cursor.xor), (7 ^ 1, 1));
    let mut cursor = start(9, 0x100);
    // An entry key is run even where it is also the exit key
    assert_eq!(step::<3>(&table, 9, &mut cursor), Step::Run(2));
    assert_eq!((cursor.key, cursor.xor), (9 ^ 3, 3));
    let mut cursor = start(5, 0x100);
    assert_eq!(step::<3>(&table, 0, &mut cursor), Step::Skip);
    assert_eq!((cursor.key, cursor.xor), (5 ^ 0x100, 0x100));
}
