use solana_program_recover::error::ProgramRecoverError;
use solana_program_recover::reconstruct::{chunk_end, reconstruct, WriteChunk};

#[test]
fn test_reconstructs_chunks_in_order() {
    let image = reconstruct(&[
        WriteChunk {
            offset: 0,
            bytes: b"\x7fELFaa".to_vec(),
        },
        WriteChunk {
            offset: 4,
            bytes: b"bb".to_vec(),
        },
    ])
    .unwrap();

    assert_eq!(image, b"\x7fELFbb".to_vec());
}

#[test]
fn test_later_chunks_overwrite_earlier_chunks() {
    let image = reconstruct(&[
        WriteChunk {
            offset: 0,
            bytes: b"\x7fELFold".to_vec(),
        },
        WriteChunk {
            offset: 4,
            bytes: b"new".to_vec(),
        },
    ])
    .unwrap();

    assert_eq!(image, b"\x7fELFnew".to_vec());
}

#[test]
fn test_rejects_missing_elf_magic() {
    assert!(matches!(
        reconstruct(&[WriteChunk {
            offset: 0,
            bytes: b"not-elf".to_vec(),
        }]),
        Err(ProgramRecoverError::MissingElfMagic)
    ));
}

#[test]
fn test_rejects_gaps() {
    assert!(matches!(
        reconstruct(&[
            WriteChunk {
                offset: 0,
                bytes: b"\x7fELF".to_vec(),
            },
            WriteChunk {
                offset: 5,
                bytes: b"x".to_vec(),
            },
        ]),
        Err(ProgramRecoverError::MissingWriteData { first_gap: 4 })
    ));
}

#[test]
fn rejects_empty_chunk_list() {
    assert!(matches!(reconstruct(&[]), Err(ProgramRecoverError::NoWriteChunks)));
}

#[test]
fn reports_first_overflowing_chunk() {
    let result = reconstruct(&[
        WriteChunk {
            offset: 0,
            bytes: b"\x7fELF".to_vec(),
        },
        WriteChunk {
            offset: usize::MAX,
            bytes: b"ab".to_vec(),
        },
        WriteChunk {
            offset: usize::MAX - 1,
            bytes: b"abc".to_vec(),
        },
    ]);
    assert!(matches!(
        result,
        Err(ProgramRecoverError::WriteOffsetOverflow { offset, length: 2 }) if offset == usize::MAX
    ));
}

#[test]
fn chunk_end_adds_offset_and_length() {
    let chunk = WriteChunk {
        offset: 10,
        bytes: vec![1, 2, 3],
    };
    assert_eq!(chunk_end(&chunk).unwrap(), 13);
    let far = WriteChunk {
        offset: usize::MAX,
        bytes: vec![1],
    };
    assert!(matches!(
        chunk_end(&far),
        Err(ProgramRecoverError::WriteOffsetOverflow { length: 1, .. })
    ));
}

#[test]
fn single_chunk_is_its_own_image() {
    let bytes = b"\x7fELF\x02\x01\x01\x00payload".to_vec();
    let image = reconstruct(&[WriteChunk {
        offset: 0,
        bytes: bytes.clone(),
    }])
    .unwrap();
    assert_eq!(image, bytes);
}

#[test]
fn last_writer_wins_regardless_of_offset_order() {
    let image = reconstruct(&[
        WriteChunk {
            offset: 2,
            bytes: b"zzzz".to_vec(),
        },
        WriteChunk {
            offset: 0,
            bytes: b"\x7fELF".to_vec(),
        },
    ])
    .unwrap();
    assert_eq!(image, b"\x7fELFzz".to_vec());
}

#[test]
fn image_shorter_than_magic_is_rejected() {
    assert!(matches!(
        reconstruct(&[WriteChunk {
            offset: 0,
            bytes: b"\x7fEL".to_vec(),
        }]),
        Err(ProgramRecoverError::MissingElfMagic)
    ));
}

#[test]
fn gap_at_start_is_reported_after_magic_check() {
    assert!(matches!(
        reconstruct(&[WriteChunk {
            offset: 1,
            bytes: b"ELF".to_vec(),
        }]),
        Err(ProgramRecoverError::MissingElfMagic)
    ));
    assert!(matches!(
        reconstruct(&[
            WriteChunk {
                offset: 0,
                bytes: b"\x7fELF".to_vec(),
            },
            WriteChunk {
                offset: 8,
                bytes: b"x".to_vec(),
            },
            WriteChunk {
                offset: 5,
                bytes: b"y".to_vec(),
            },
        ]),
        Err(ProgramRecoverError::MissingWriteData { first_gap: 4 })
    ));
}

#[test]
fn disjoint_chunks_rebuild_the_same_in_any_order() {
    let chunks = vec![
        WriteChunk { offset: 0, bytes: b"\x7fE".to_vec() },
        WriteChunk { offset: 2, bytes: b"LF".to_vec() },
        WriteChunk { offset: 4, bytes: b"xyz".to_vec() },
    ];
    let reordered = vec![chunks[2].clone(), chunks[0].clone(), chunks[1].clone()];
    let image = reconstruct(&chunks).unwrap();
    assert_eq!(image, b"\x7fELFxyz".to_vec());
    assert_eq!(reconstruct(&reordered).unwrap(), image);

    let gapped = vec![chunks[1].clone(), WriteChunk { offset: 6, bytes: b"z".to_vec() }, chunks[0].clone()];
    let first = reconstruct(&gapped);
    let second = reconstruct(&[gapped[2].clone(), gapped[0].clone(), gapped[1].clone()]);
    assert!(matches!(first, Err(ProgramRecoverError::MissingWriteData { first_gap: 4 })));
    assert!(matches!(second, Err(ProgramRecoverError::MissingWriteData { first_gap: 4 })));
}
