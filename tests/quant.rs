use gpu_bench::quant::{
    assemble_sint8, pack_halves, pack_sint4, pack_sint8, sint8_segments, unpack_halves,
    unpack_sint4, unpack_sint8, BufferSegment, GROUP_SIZE,
};
use gpu_bench::Quantization;
use half::f16;

fn absmax(values: &[f32]) -> f32 {
    values.iter().fold(0.0f32, |acc, &x| acc.max(x.abs()))
}

fn scale_lanes(values: &[f32], absmax: f32, sf: f32) -> Vec<i8> {
    values
        .iter()
        .map(|&x| (x / absmax * sf).round().clamp(-sf, sf) as i8)
        .collect()
}

#[test]
pub fn test_sint8_qdq() {
    let matrix: Vec<f32> = vec![
        0.1, -0.1, 0.5, -0.5, 1.0, -1.0, 1.2, -1.2, 0.1, -0.1, 0.5, -0.5, 1.0, -1.0, 1.2, -1.2,
    ];
    let am = absmax(&matrix);
    let lanes = scale_lanes(&matrix, am, 127.0);
    let quantized_matrix = pack_sint8(&lanes);
    assert_eq!(quantized_matrix.len(), 4);
    assert_eq!(
        quantized_matrix,
        vec![3409310987, 2172622442, 3409310987, 2172622442]
    );
    let unpacked = unpack_sint8(&quantized_matrix);
    assert_eq!(unpacked, lanes);
    let dequantized_matrix: Vec<f32> = unpacked.iter().map(|&q| q as f32 / 127.0 * am).collect();
    for i in 0..matrix.len() {
        assert!((matrix[i] - dequantized_matrix[i]).abs() < 0.01);
    }
}

#[test]
pub fn test_sint4_qdq() {
    let matrix: Vec<f32> = vec![
        0.1, -0.1, 0.6, -0.5, 1.0, -1.0, 1.2, -1.2, 0.1, -0.1, 0.5, -0.5, 1.0, -1.0, 1.2, -1.2,
    ];
    println!("{:?}", matrix);
    let am = absmax(&matrix);
    let lanes = scale_lanes(&matrix, am, 7.0);
    let quantized_matrix = pack_sint4(&lanes);
    assert_eq!(quantized_matrix.len(), 2);
    assert_eq!(quantized_matrix, vec![2544293105, 2544292849]);
    let unpacked = unpack_sint4(&quantized_matrix);
    assert_eq!(unpacked, lanes);
    let dequantized_matrix: Vec<f32> = unpacked.iter().map(|&q| q as f32 / 7.0 * am).collect();
    println!("{:?}", dequantized_matrix);
    for i in 0..matrix.len() {
        assert!((matrix[i] - dequantized_matrix[i]).abs() < 0.1);
    }
}

#[test]
pub fn test_float16_qdq() {
    let matrix: Vec<f32> = vec![
        0.1, -0.1, 0.5, -0.5, 1.0, -1.0, 1.2, -1.2, 0.1, -0.1, 0.5, -0.5, 1.0, -1.0, 1.2, -1.2,
    ];
    println!("{:?}", matrix);
    let halves: Vec<u16> = matrix.iter().map(|&x| f16::from_f32(x).to_bits()).collect();
    let quantized_matrix = pack_halves(&halves);
    println!("{:?}", quantized_matrix);
    assert_eq!(quantized_matrix.len(), 8);
    assert_eq!(
        quantized_matrix,
        vec![
            2925932134, 3087022080, 3154131968, 3167567053, 2925932134, 3087022080, 3154131968,
            3167567053
        ]
    );
    let dequantized_matrix: Vec<f32> = unpack_halves(&quantized_matrix)
        .iter()
        .map(|&h| f16::from_bits(h).to_f32())
        .collect();
    println!("{:?}", dequantized_matrix);
    for i in 0..matrix.len() {
        assert!((matrix[i] - dequantized_matrix[i]).abs() < 0.001);
    }
}

#[test]
fn sint8_lane_bytes() {
    assert_eq!(pack_sint8(&[1, 2, 3, 4]), vec![0x04030201]);
    assert_eq!(pack_sint8(&[-1, 0, 0, -128]), vec![0x800000FF]);
    assert_eq!(unpack_sint8(&[0x800000FF]), vec![-1, 0, 0, -128]);
    assert_eq!(pack_sint8(&[]), Vec::<u32>::new());
}

#[test]
fn sint4_lane_nibbles() {
    assert_eq!(pack_sint4(&[1, 2, 3, 4, 5, 6, 7, -8]), vec![0x87654321]);
    assert_eq!(unpack_sint4(&[0x87654321]), vec![1, 2, 3, 4, 5, 6, 7, -8]);
    assert_eq!(pack_sint4(&[-1, 0, 0, 0, 0, 0, 0, 0]), vec![0xF]);
}

#[test]
fn halves_order() {
    assert_eq!(pack_halves(&[0x1234, 0xABCD]), vec![0xABCD1234]);
    assert_eq!(unpack_halves(&[0xABCD1234]), vec![0x1234, 0xABCD]);
}

#[test]
fn packing_is_deterministic() {
    let lanes: Vec<i8> = (0..64).map(|i| (i * 7 % 255 - 127) as i8).collect();
    assert_eq!(pack_sint8(&lanes), pack_sint8(&lanes.clone()));
    assert_eq!(unpack_sint8(&pack_sint8(&lanes)), lanes);
}

#[test]
fn sint8_sections_are_aligned() {
    let packed = vec![7u32; 4];
    let scales = vec![1.2f32.to_bits()];
    let buffer = assemble_sint8(&packed, &scales);
    assert_eq!(buffer.len(), 128);
    assert_eq!(&buffer[..4], &[7, 7, 7, 7]);
    assert!(buffer[4..64].iter().all(|&w| w == 0));
    assert_eq!(buffer[64], 1.2f32.to_bits());
    assert!(buffer[65..].iter().all(|&w| w == 0));
    assert_eq!(assemble_sint8(&vec![1u32; 64], &[]).len(), 64);
}

#[test]
fn sint8_segment_offsets() {
    let segs = sint8_segments(16);
    assert_eq!(
        segs,
        vec![
            BufferSegment { offset: 0, size: 16 },
            BufferSegment { offset: 256, size: 4 },
        ]
    );
    let segs = sint8_segments(512);
    assert_eq!(segs[1], BufferSegment { offset: 512, size: 128 });
    assert_eq!(GROUP_SIZE, 16);
    assert_eq!(Quantization::SInt8, Quantization::SInt8);
    assert_ne!(Quantization::Unquantized, Quantization::Float16);
}
