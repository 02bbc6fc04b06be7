use svtav1::entropy::bitwriter::BitWriter;
use svtav1::entropy::obu::{
    build_tile_group_single, tile_log2, uleb_encode, write_inter_frame, write_obu, write_obu_header,
    write_sequence_header, write_still_frame, write_temporal_delimiter, write_tile_info, ObuType,
};

#[test]
fn uleb_encode_small() {
    assert_eq!(uleb_encode(0), vec![0]);
    assert_eq!(uleb_encode(1), vec![1]);
    assert_eq!(uleb_encode(127), vec![127]);
}

#[test]
fn uleb_encode_multi_byte() {
    assert_eq!(uleb_encode(128), vec![0x80, 0x01]);
    assert_eq!(uleb_encode(256), vec![0x80, 0x02]);
}

#[test]
fn uleb_encode_max() {
    assert_eq!(uleb_encode(u32::MAX), vec![0xFF, 0xFF, 0xFF, 0xFF, 0x0F]);
}

#[test]
fn obu_header_basic() {
    let header = write_obu_header(ObuType::SequenceHeader, false);
    assert_eq!(header.len(), 1);
    assert_eq!(header[0], 0b0_0001_0_1_0);
}

#[test]
fn obu_header_frame() {
    let header = write_obu_header(ObuType::Frame, false);
    assert_eq!(header[0], 0b0_0110_0_1_0);
}

#[test]
fn obu_header_extension_flag() {
    let header = write_obu_header(ObuType::Frame, true);
    assert_eq!(header[0], 0b0_0110_1_1_0);
}

#[test]
fn obu_wraps_payload_with_size() {
    let obu = write_obu(ObuType::Padding, &[7, 8, 9]);
    assert_eq!(obu, vec![0b0_1111_0_1_0, 3, 7, 8, 9]);
}

#[test]
fn temporal_delimiter_obu() {
    let td = write_temporal_delimiter();
    assert_eq!(td.len(), 2);
    assert_eq!(td[0], 0b0_0010_0_1_0);
    assert_eq!(td[1], 0);
}

#[test]
fn sequence_header_non_empty() {
    let sh = write_sequence_header(64, 64);
    assert!(sh.len() > 3, "sequence header should be > 3 bytes");
    assert_eq!(sh[0], 0b0_0001_0_1_0);
}

#[test]
fn still_frame_produces_valid_structure() {
    let tile_data = vec![0u8; 10];
    let bitstream = write_still_frame(64, 64, 128, &tile_data);
    assert!(bitstream.len() > 20, "bitstream should be substantial");
    assert_eq!(bitstream[0], 0b0_0010_0_1_0);
}

#[test]
fn inter_frame_is_one_frame_obu() {
    let bitstream = write_inter_frame(100, 1, 3, &[1, 2, 3]);
    assert_eq!(bitstream[0], 0b0_0110_0_1_0);
    assert_eq!(bitstream[1] as usize, bitstream.len() - 2);
    assert_eq!(&bitstream[bitstream.len() - 3..], &[1, 2, 3]);
}

#[test]
fn single_tile_group_is_flag_then_data() {
    let tg = build_tile_group_single(&[5, 6]);
    assert_eq!(tg, vec![0b0100_0000, 5, 6]);
}

#[test]
fn bit_writer_basic() {
    let mut bw = BitWriter::new();
    bw.write_bits(0b1010, 4);
    bw.write_bits(0b1100, 4);
    assert_eq!(bw.bytes_written(), 1);
    assert_eq!(bw.data()[0], 0b10101100);
}

#[test]
fn bit_writer_cross_byte() {
    let mut bw = BitWriter::new();
    bw.write_bits(0xFF, 8);
    bw.write_bits(0x01, 1);
    assert_eq!(bw.bytes_written(), 2);
    assert_eq!(bw.data()[0], 0xFF);
    assert_eq!(bw.data()[1], 0x80);
}

#[test]
fn tile_info_single_sb() {
    let mut wb = BitWriter::new();
    write_tile_info(&mut wb, 64, 64);
    assert_eq!(wb.bit_offset(), 1);
}

#[test]
fn tile_info_four_sbs() {
    let mut wb = BitWriter::new();
    write_tile_info(&mut wb, 128, 128);
    assert_eq!(wb.bit_offset(), 3);
}

#[test]
fn tile_log2_values() {
    assert_eq!(tile_log2(0), 0);
    assert_eq!(tile_log2(1), 0);
    assert_eq!(tile_log2(2), 1);
    assert_eq!(tile_log2(3), 2);
    assert_eq!(tile_log2(4), 2);
    assert_eq!(tile_log2(5), 3);
}
