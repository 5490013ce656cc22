use catnip::memory::Ixybuf;

#[test]
fn header_is_added_in_front_of_the_data() {
    let mut buf = Ixybuf { data_offset: 64, data_length: 100 };
    assert_eq!(buf.len(), 100);
    // Room for a header of 8 bytes, which is then counted as data.
    buf.forward_offset(8);
    assert_eq!(buf, Ixybuf { data_offset: 56, data_length: 100 });
    buf.update_length(8);
    assert_eq!(buf, Ixybuf { data_offset: 56, data_length: 108 });
    buf.forward_offset(56);
    assert_eq!(buf.data_offset, 0);
    buf.update_length(0);
    assert_eq!(buf.len(), 108);
}

#[test]
fn header_is_taken_off_the_data() {
    let mut buf = Ixybuf { data_offset: 0, data_length: 50 };
    buf.adjust(14);
    assert_eq!(buf, Ixybuf { data_offset: 14, data_length: 36 });
    buf.trim(6);
    assert_eq!(buf, Ixybuf { data_offset: 14, data_length: 30 });
    buf.adjust(30);
    assert_eq!(buf, Ixybuf { data_offset: 44, data_length: 0 });
    buf.trim(0);
    assert_eq!(buf.len(), 0);
}
