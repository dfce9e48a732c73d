use image_compression::compression::dictionary::{DecoderTable, EncoderTable};

#[test]
fn encoder_table_starts_with_the_literals() {
    let table = EncoderTable::new(4096);
    assert_eq!(table.len(), 256);
    assert_eq!(table.longer(65, 66), None);
    assert_eq!(table.longer(0, 0), None);
}

#[test]
fn encoder_table_finds_what_it_learned() {
    let mut table = EncoderTable::new(4096);
    table.learn(65, 66);
    assert_eq!(table.len(), 257);
    assert_eq!(table.longer(65, 66), Some(256));
    assert_eq!(table.longer(66, 65), None);
    table.learn(256, 67);
    assert_eq!(table.len(), 258);
    assert_eq!(table.longer(256, 67), Some(257));
    assert_eq!(table.longer(256, 68), None);
    assert_eq!(table.longer(65, 66), Some(256));
}

#[test]
fn encoder_table_is_frozen_once_full() {
    let mut table = EncoderTable::new(257);
    table.learn(65, 66);
    table.learn(66, 65);
    assert_eq!(table.len(), 257);
    assert_eq!(table.longer(65, 66), Some(256));
    assert_eq!(table.longer(66, 65), None);

    let mut literals = EncoderTable::new(100);
    literals.learn(1, 2);
    assert_eq!(literals.len(), 256);
    assert_eq!(literals.longer(1, 2), None);
}

#[test]
fn encoder_table_takes_every_code() {
    let mut table = EncoderTable::new(65536);
    let mut code: u16 = 0;
    while table.len() < 65536 {
        // a chain: each new string is the last one and a zero byte
        table.learn(code, 0);
        code = (table.len() - 1) as u16;
        assert_eq!(table.longer(code, 0), None);
    }
    assert_eq!(table.longer(0, 0), Some(256));
    assert_eq!(table.longer(65534, 0), Some(65535));
    table.learn(65535, 0);
    assert_eq!(table.len(), 65536);
}

#[test]
fn decoder_table_starts_with_the_literals() {
    let table = DecoderTable::new(4096);
    assert_eq!(table.len(), 256);
    let previous = vec![1u8, 2];
    assert_eq!(table.entry(0, &previous), Some(vec![0]));
    assert_eq!(table.entry(65, &previous), Some(vec![65]));
    assert_eq!(table.entry(255, &previous), Some(vec![255]));
}

#[test]
fn decoder_table_rebuilds_the_entry_not_yet_made() {
    let table = DecoderTable::new(4096);
    assert_eq!(table.entry(256, &vec![1, 2]), Some(vec![1, 2, 1]));
    assert_eq!(table.entry(256, &vec![9]), Some(vec![9, 9]));
    assert_eq!(table.entry(257, &vec![1, 2]), None);
    assert_eq!(table.entry(65535, &vec![1, 2]), None);
}

#[test]
fn decoder_table_holds_what_it_learned() {
    let mut table = DecoderTable::new(4096);
    table.learn(vec![65, 66]);
    assert_eq!(table.len(), 257);
    assert_eq!(table.entry(256, &vec![1]), Some(vec![65, 66]));
    assert_eq!(table.entry(257, &vec![1]), Some(vec![1, 1]));
    assert_eq!(table.entry(258, &vec![1]), None);
}

#[test]
fn decoder_table_is_frozen_once_full() {
    let mut table = DecoderTable::new(257);
    table.learn(vec![65, 66]);
    table.learn(vec![66, 65]);
    assert_eq!(table.len(), 257);
    assert_eq!(table.entry(256, &vec![1]), Some(vec![65, 66]));
    assert_eq!(table.entry(257, &vec![7, 8]), Some(vec![7, 8, 7]));
}
