use image::ImageDecoder;
use tileyolo::{
    clip_to_envelope, colourise, render_tile, Palette, PlacedStop, RenderError, Rgba, SAMPLE_ONE,
};

fn rgba(red: u8, green: u8, blue: u8, alpha: u8) -> Rgba {
    Rgba { red, green, blue, alpha }
}

fn two_stops(c0: Rgba, c1: Rgba) -> Palette {
    Palette::Stops(vec![
        PlacedStop { position: 0, colour: c0 },
        PlacedStop { position: SAMPLE_ONE as i64, colour: c1 },
    ])
}

#[test]
fn the_midpoint_between_two_stops_takes_the_mean_colour() {
    let p = two_stops(rgba(215, 25, 28, 255), rgba(253, 174, 97, 255));
    let out = colourise(&vec![Some(SAMPLE_ONE / 2)], &p);
    assert_eq!(out, vec![234, 99, 62, 255]);
}

#[test]
fn stops_give_their_own_colour_at_their_position() {
    let p = Palette::Stops(vec![
        PlacedStop { position: 0, colour: rgba(0, 0, 0, 255) },
        PlacedStop { position: 16384, colour: rgba(100, 100, 100, 255) },
        PlacedStop { position: SAMPLE_ONE as i64, colour: rgba(200, 0, 50, 255) },
    ]);
    let out = colourise(&vec![Some(0), Some(16384), Some(SAMPLE_ONE), Some(8192)], &p);
    assert_eq!(
        out,
        vec![0, 0, 0, 255, 100, 100, 100, 255, 200, 0, 50, 255, 50, 50, 50, 255]
    );
}

#[test]
fn samples_outside_the_stops_are_transparent() {
    let p = Palette::Stops(vec![
        PlacedStop { position: 1000, colour: rgba(9, 9, 9, 255) },
        PlacedStop { position: 2000, colour: rgba(9, 9, 9, 255) },
    ]);
    assert_eq!(colourise(&vec![Some(500), Some(3000)], &p), vec![0; 8]);
    let single = Palette::Stops(vec![PlacedStop { position: 0, colour: rgba(1, 2, 3, 4) }]);
    assert_eq!(colourise(&vec![Some(0)], &single), vec![0; 4]);
    let flat = Palette::Stops(vec![
        PlacedStop { position: 0, colour: rgba(1, 2, 3, 4) },
        PlacedStop { position: 0, colour: rgba(5, 6, 7, 8) },
    ]);
    assert_eq!(colourise(&vec![Some(0)], &flat), vec![0; 4]);
}

#[test]
fn no_data_is_transparent_and_data_opaque() {
    let samples = vec![None, Some(0), Some(SAMPLE_ONE), None, Some(123)];
    for p in [
        Palette::Grayscale,
        Palette::Gradient(vec![rgba(1, 2, 3, 255), rgba(4, 5, 6, 255)]),
        two_stops(rgba(0, 0, 0, 255), rgba(255, 255, 255, 255)),
    ] {
        let out = colourise(&samples, &p);
        let alphas: Vec<u8> = out.chunks(4).map(|c| c[3]).collect();
        assert_eq!(alphas, vec![0, 255, 255, 0, 255]);
        assert_eq!(&out[0..4], &[0, 0, 0, 0]);
    }
}

#[test]
fn grey_levels_run_from_black_to_white() {
    let out = colourise(&vec![Some(0), Some(SAMPLE_ONE / 2), Some(SAMPLE_ONE)], &Palette::Grayscale);
    assert_eq!(out, vec![0, 0, 0, 255, 127, 127, 127, 255, 255, 255, 255, 255]);
}

#[test]
fn gradients_are_read_at_the_sample_below() {
    let table = vec![rgba(10, 0, 0, 255), rgba(20, 0, 0, 255), rgba(30, 0, 0, 255)];
    let out = colourise(
        &vec![Some(0), Some(SAMPLE_ONE / 2 - 1), Some(SAMPLE_ONE / 2), Some(SAMPLE_ONE)],
        &Palette::Gradient(table),
    );
    let reds: Vec<u8> = out.chunks(4).map(|c| c[0]).collect();
    assert_eq!(reds, vec![10, 10, 20, 30]);
}

#[test]
fn pixels_outside_the_envelope_become_no_data() {
    let mut samples = vec![Some(1), Some(2), Some(3), Some(4), Some(5), Some(6)];
    clip_to_envelope(&mut samples, 3, 2, &vec![true, false, true], &vec![true, false]);
    assert_eq!(samples, vec![Some(1), None, Some(3), None, None, None]);
}

#[test]
fn a_rendered_tile_is_an_rgba_png_with_transparent_no_data() {
    let width = 16u32;
    let height = 16u32;
    let mut samples = Vec::new();
    for i in 0..(width * height) {
        samples.push(if i % 10 == 3 { None } else { Some(i * 200) });
    }
    let cols = vec![true; width as usize];
    let rows = vec![true; height as usize];
    let p = two_stops(rgba(0, 0, 255, 255), rgba(255, 0, 0, 255));
    let png = render_tile(samples.clone(), width, height, &cols, &rows, &p).unwrap();
    assert!(!png.is_empty());
    let decoder = image::codecs::png::PngDecoder::new(std::io::Cursor::new(&png)).unwrap();
    assert_eq!(decoder.color_type(), image::ColorType::Rgba8);
    assert_eq!(decoder.dimensions(), (width, height));
    let img = image::load_from_memory(&png).unwrap().to_rgba8();
    let expected = colourise(&samples, &p);
    assert_eq!(img.as_raw(), &expected);
    let transparent = img.pixels().filter(|px| px.0[3] == 0).count();
    assert_eq!(transparent, samples.iter().filter(|s| s.is_none()).count());
    assert!(transparent > 0);
}

#[test]
fn an_empty_tile_is_refused() {
    let r = render_tile(vec![], 0, 4, &vec![], &vec![true; 4], &Palette::Grayscale);
    assert_eq!(r, Err(RenderError::EmptyTile));
    let r = render_tile(vec![], 4, 0, &vec![true; 4], &vec![], &Palette::Grayscale);
    assert_eq!(r, Err(RenderError::EmptyTile));
    let one = render_tile(vec![None], 1, 1, &vec![true], &vec![true], &Palette::Grayscale);
    assert!(one.is_ok());
}
