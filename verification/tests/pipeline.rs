use audiopipe::config::{AudioFormatEnum, SinkConfig};
use audiopipe::filters::{Converter, Passthrough, SampleConverter, SinkExt};
use audiopipe::formats::{F32, I16};
use audiopipe::sinks::WriteSink;
use audiopipe::{AudioFormat, AudioFormatConfig, Norm, Sink, SinkError};

fn norm(x: f32) -> Norm {
    Norm::from_bits(x.to_bits())
}

#[test]
fn write_sink_serializes_each_write() {
    let mut sink = WriteSink::new(I16);
    assert!(sink.start().is_ok());
    let mut data: Vec<i16> = vec![0x0102, -1];
    assert!(sink.write(&mut data).is_ok());
    assert_eq!(sink.bytes(), &vec![0x01, 0x02, 0xFF, 0xFF]);
    let mut next: Vec<i16> = vec![3];
    assert!(sink.write(&mut next).is_ok());
    assert_eq!(sink.bytes(), &vec![0x00, 0x03]);
    assert!(sink.stop().is_ok());
}

#[test]
fn sample_converter_quantizes_then_forwards() {
    let mut chain = SampleConverter::new(WriteSink::new(I16));
    let mut data: Vec<Norm> = vec![norm(0.0), norm(1.0), norm(-1.0), norm(0.5)];
    assert!(chain.write(&mut data).is_ok());
    assert_eq!(
        chain.sink.bytes(),
        &vec![0x00, 0x00, 0x7F, 0xFF, 0x80, 0x00, 0x3F, 0xFF]
    );
}

#[test]
fn convert_clears_before_filling() {
    // a converter owns its output: stale contents never survive
    let mut buf: Vec<i16> = vec![9, 9, 9, 9, 9];
    Passthrough::<I16>::new().convert(&[1, -2], &mut buf);
    assert_eq!(buf, vec![1, -2]);
    Passthrough::<I16>::new().convert(&[], &mut buf);
    assert_eq!(buf, Vec::<i16>::new());
}

#[test]
fn passthrough_conversion_is_byte_identical() {
    // an identity converter in front of serialization...
    let mut chain = WriteSink::new(I16).add_converter(Passthrough::<I16>::new());
    let mut data: Vec<i16> = vec![5, -6, 32767, -32768];
    assert!(chain.write(&mut data).is_ok());
    let converted = chain.sink.bytes().clone();

    // ...yields exactly the bytes of serializing the source directly
    let mut direct_sink = WriteSink::new(I16);
    let mut direct_data: Vec<i16> = vec![5, -6, 32767, -32768];
    assert!(direct_sink.write(&mut direct_data).is_ok());
    assert_eq!(&converted, direct_sink.bytes());
}

#[test]
fn filter_stage_mutates_in_place_and_forwards() {
    let mut chain = WriteSink::new(F32).add_filter(Passthrough::<F32>::new());
    let mut data: Vec<Norm> = vec![norm(1.0), norm(-0.5), norm(0.0), norm(0.25)];
    let expected = data.clone();
    assert!(chain.write(&mut data).is_ok());
    // the same buffer was forwarded: the pass-through left every element
    assert_eq!(data, expected);
    let mut direct = Vec::new();
    F32.to_bytes(&expected, &mut direct);
    assert_eq!(chain.sink.bytes(), &direct);
}

#[test]
fn chain_matches_manual_application() {
    // chain(S, [F, G]) with filter stages F and G in front of a
    // quantizing converter stage and the serializing terminal S
    let mut chain = SampleConverter::new(WriteSink::new(I16))
        .add_filter(Passthrough::<F32>::new())
        .add_filter(Passthrough::<F32>::new());
    let input = [1.0f32, -1.0, 0.5, 0.875, 0.0];
    let mut data: Vec<Norm> = input.iter().map(|x| norm(*x)).collect();
    assert!(chain.write(&mut data).is_ok());
    let chained = chain.sink.sink.sink.bytes().clone();

    // manually apply each stage's transform, then serialize directly
    let manual: Vec<i16> = input.iter().map(|x| I16.from_f32(&norm(*x))).collect();
    let mut direct = Vec::new();
    I16.to_bytes(&manual, &mut direct);
    assert_eq!(chained, direct);
}

#[test]
fn converter_scratch_buffer_stops_growing() {
    let mut chain = SampleConverter::new(WriteSink::new(I16));
    let sizes = [1usize, 2, 3, 8, 8, 8];
    let mut caps: Vec<usize> = Vec::new();
    for n in sizes {
        let mut data: Vec<Norm> = vec![norm(0.5); n];
        assert!(chain.write(&mut data).is_ok());
        caps.push(chain.buf.capacity());
    }
    // with non-decreasing input sizes the scratch capacity stabilizes:
    // no growth after the first write of the largest size
    assert_eq!(caps[3], caps[4]);
    assert_eq!(caps[3], caps[5]);
    assert!(caps[3] >= 8);
}

#[test]
fn sink_error_carries_its_message() {
    let e = SinkError::new(String::from("device gone"));
    assert_eq!(e.describe().as_str(), "device gone");
}

#[test]
fn configuration_defaults() {
    assert_eq!(AudioFormatEnum::default(), AudioFormatEnum::I16);
    assert_eq!(AudioFormatConfig::default(), AudioFormatConfig::S16);
    let c = SinkConfig::default();
    assert!(c.device_name.is_none());
    assert_eq!(c.audio_format, AudioFormatEnum::I16);
}
