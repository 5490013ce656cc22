use catnip::fail::Fail;
use catnip::file_table::{File, FileTable, MAX_OPEN_FILES};

#[test]
fn descriptors_are_allocated_in_order() {
    let mut table = FileTable::new();
    assert_eq!(table.get(0), None);
    assert_eq!(table.allocate(File::TcpSocket).unwrap(), 0);
    assert_eq!(table.allocate(File::UdpSocket).unwrap(), 1);
    assert_eq!(table.allocate(File::TcpSocket).unwrap(), 2);
    assert_eq!(table.get(0), Some(File::TcpSocket));
    assert_eq!(table.get(1), Some(File::UdpSocket));
    assert_eq!(table.get(2), Some(File::TcpSocket));
    assert_eq!(table.get(3), None);
}

#[test]
fn freed_descriptor_is_used_again() {
    let mut table = FileTable::default();
    let a = table.allocate(File::TcpSocket).unwrap();
    let b = table.allocate(File::UdpSocket).unwrap();
    assert_eq!(table.free(a), Some(File::TcpSocket));
    assert_eq!(table.get(a), None);
    assert_eq!(table.get(b), Some(File::UdpSocket));
    // Freeing twice finds nothing the second time.
    assert_eq!(table.free(a), None);
    assert_eq!(table.allocate(File::UdpSocket).unwrap(), a);
    assert_eq!(table.get(a), Some(File::UdpSocket));
}

#[test]
fn free_of_unknown_descriptor_changes_nothing() {
    let mut table = FileTable::new();
    assert_eq!(table.free(17), None);
    assert_eq!(table.free(u32::MAX), None);
    assert_eq!(table.allocate(File::UdpSocket).unwrap(), 0);
    assert_eq!(table.free(1), None);
    assert_eq!(table.get(0), Some(File::UdpSocket));
}

#[test]
fn every_descriptor_fits_its_type() {
    assert!(MAX_OPEN_FILES as u64 <= u32::MAX as u64);
}

#[test]
fn full_table_refuses_more_files() {
    let mut table = FileTable::new();
    for expected in 0..MAX_OPEN_FILES {
        assert_eq!(table.allocate(File::UdpSocket), Ok(expected as u32));
    }
    assert_eq!(
        table.allocate(File::TcpSocket),
        Err(Fail::ResourceExhausted { details: "too many open files" })
    );
    // The refusal changed nothing, and a freed descriptor can be had again.
    assert_eq!(table.get((MAX_OPEN_FILES - 1) as u32), Some(File::UdpSocket));
    assert_eq!(table.get(MAX_OPEN_FILES as u32), None);
    assert_eq!(table.free(12), Some(File::UdpSocket));
    assert_eq!(table.allocate(File::TcpSocket), Ok(12));
    assert_eq!(table.get(12), Some(File::TcpSocket));
}
