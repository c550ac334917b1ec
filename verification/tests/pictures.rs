use some_audiobook_player::library::cover::load_cover;
use some_audiobook_player::library::picture::is_decodable;
use some_audiobook_player::library::Cover;

const SEQUENTIAL: u8 = 0xc0;
const PROGRESSIVE: u8 = 0xc2;

fn segment(marker: u8, payload: &[u8]) -> Vec<u8> {
    let length = payload.len() + 2;
    let mut out = vec![0xff, marker, (length >> 8) as u8, length as u8];
    out.extend_from_slice(payload);
    out
}

/// Steps of one for every frequency but the first.
fn steps(first: u8) -> Vec<u8> {
    let mut table = vec![0, first];
    table.extend_from_slice(&[1; 63]);
    segment(0xdb, &table)
}

/// A code table with one code of one bit.
fn code(class: u8, symbol: u8) -> Vec<u8> {
    let mut table = vec![class << 4, 1];
    table.extend_from_slice(&[0; 15]);
    table.push(symbol);
    segment(0xc4, &table)
}

fn frame(marker: u8, side: u16, sampling: &[u8]) -> Vec<u8> {
    let [hi, lo] = side.to_be_bytes();
    let mut payload = vec![8, hi, lo, hi, lo, sampling.len() as u8];
    for (i, s) in sampling.iter().enumerate() {
        payload.extend_from_slice(&[i as u8 + 1, *s, 0]);
    }
    segment(marker, &payload)
}

fn scan(parts: &[u8], last: u8, bits: &[u8]) -> Vec<u8> {
    let mut payload = vec![parts.len() as u8];
    for p in parts {
        payload.extend_from_slice(&[*p, 0]);
    }
    payload.extend_from_slice(&[0, last, 0]);
    let mut out = segment(0xda, &payload);
    out.extend_from_slice(bits);
    out
}

fn jpeg(segments: &[Vec<u8>]) -> Vec<u8> {
    let mut out = vec![0xff, 0xd8];
    for s in segments {
        out.extend_from_slice(s);
    }
    out.extend_from_slice(&[0xff, 0xd9]);
    out
}

fn load(data: &[u8]) -> Option<(usize, usize, Vec<u8>)> {
    load_cover(&Cover { data: data.to_vec(), is_png: false }).map(|p| (p.width, p.height, p.rgba))
}

fn grey(side: usize) -> Option<(usize, usize, Vec<u8>)> {
    Some((side, side, [128, 128, 128, 255].repeat(side * side)))
}

#[test]
fn a_sequential_picture_is_decoded() {
    let tables = || vec![steps(1), code(0, 0), code(1, 0)];
    let with = |f: Vec<u8>, s: Vec<u8>| jpeg(&[tables(), vec![f, s]].concat());
    assert_eq!(load(&with(frame(SEQUENTIAL, 8, &[0x11]), scan(&[1], 63, &[0x3f]))), grey(8));
    assert_eq!(load(&with(frame(SEQUENTIAL, 16, &[0x22, 0x11, 0x11]), scan(&[1, 2, 3], 63, &[0, 0x0f]))), grey(16));
    assert_eq!(load(&with(frame(SEQUENTIAL, 16, &[0x21, 0x11, 0x11]), scan(&[1, 2, 3], 63, &[0, 0]))), grey(16));
    // Fill bytes before a marker, and a comment.
    let mut filled = vec![0xff, 0xd8, 0xff, 0xff];
    filled.extend_from_slice(&segment(0xfe, b"hello"));
    filled.extend_from_slice(&with(frame(SEQUENTIAL, 8, &[0x11]), scan(&[1], 63, &[0x3f]))[2..]);
    assert_eq!(load(&filled), grey(8));
}

#[test]
fn a_progressive_picture_is_decoded() {
    let data = jpeg(&[steps(1), frame(PROGRESSIVE, 8, &[0x11]), code(0, 0), scan(&[1], 0, &[0x7f])]);
    assert_eq!(load(&data), grey(8));
}

#[test]
fn pictures_that_were_encoded_are_decoded() {
    let img = image::DynamicImage::ImageRgb8(image::RgbImage::from_pixel(40, 30, image::Rgb([200, 100, 50])));
    for format in [image::ImageFormat::Jpeg, image::ImageFormat::Png] {
        for picture in [img.clone(), image::DynamicImage::ImageLuma8(img.to_luma8())] {
            let mut file = std::io::Cursor::new(Vec::new());
            picture.write_to(&mut file, format).unwrap();
            let (w, h, rgba) = load(&file.into_inner()).unwrap();
            assert_eq!((w, h, rgba.len()), (40, 30, 4 * 40 * 30));
            let wanted = picture.to_rgba8().into_raw();
            assert!(rgba.iter().zip(&wanted).all(|(a, b)| a.abs_diff(*b) < 4));
        }
    }
}

#[test]
fn components_follow_the_first_one() {
    let tables = || vec![steps(1), code(0, 0), code(1, 0)];
    let all = |sampling: &[u8], parts: &[u8]| {
        let f = frame(SEQUENTIAL, 16, sampling);
        is_decodable(&jpeg(&[tables(), vec![f, scan(parts, 63, &[0, 0])]].concat()))
    };
    assert!(all(&[0x22, 0x11, 0x11], &[1, 2, 3]));
    assert!(all(&[0x22, 0x21, 0x12], &[1, 2, 3]));
    assert!(all(&[0x22, 0x11, 0x11, 0x22], &[1, 2, 3, 4]));
    assert!(!all(&[0x11, 0x22, 0x11], &[1, 2, 3]));
    assert!(!all(&[0x11, 0x22, 0x11], &[1]));
    assert!(!all(&[0x22, 0x11, 0x11], &[1]));
    assert!(!all(&[0x24, 0x11, 0x11], &[1, 2, 3]));
    assert!(!all(&[0x22, 0x01, 0x11], &[1, 2, 3]));
    assert!(!all(&[0x11, 0x11], &[1, 2]));
    let data = jpeg(&[tables(), vec![frame(SEQUENTIAL, 16, &[0x11, 0x22, 0x11]), scan(&[1], 63, &[0, 0])]].concat());
    assert_eq!(load(&data), None);
    let four = |sampling: &[u8]| {
        is_decodable(&jpeg(&[steps(1), frame(PROGRESSIVE, 16, sampling), code(0, 0), scan(&[1], 0, &[0])]))
    };
    assert!(four(&[0x11, 0x11, 0x11, 0x11]));
    assert!(!four(&[0x22, 0x11, 0x11, 0x22]));
    assert!(four(&[0x22, 0x11, 0x11]));
}

#[test]
fn brightness_stays_in_range() {
    let with = |first: u8, category: u8, side: u16| {
        let f = frame(SEQUENTIAL, side, &[0x11]);
        is_decodable(&jpeg(&[steps(first), code(0, category), code(1, 0), f, scan(&[1], 63, &[0])]))
    };
    assert!(with(255, 11, 512));
    assert!(!with(255, 11, 520));
    assert!(with(3, 11, 4000));
    assert!(!with(5, 11, 4000));
    assert!(!with(1, 12, 8));
    assert!(!with(0, 0, 8200));
    let mut wide = vec![0x10, 0x01, 0x00];
    wide.extend_from_slice(&[0; 126]);
    let sixteen = |side: u16| {
        let f = frame(SEQUENTIAL, side, &[0x11]);
        is_decodable(&jpeg(&[segment(0xdb, &wide), code(0, 0), code(1, 0), f, scan(&[1], 63, &[0])]))
    };
    assert!(sixteen(504));
    assert!(!sixteen(520));
}

#[test]
fn headers_are_followed_to_the_first_scan() {
    let body = || vec![code(0, 0), code(1, 0), frame(SEQUENTIAL, 8, &[0x11]), scan(&[1], 63, &[0x3f])];
    assert!(is_decodable(&jpeg(&[vec![steps(1)], body()].concat())));
    // The space of colours is told before the frame, or not at all.
    let adobe = || segment(0xee, b"Adobe\0\0\0\0\0\0\x02");
    assert!(is_decodable(&jpeg(&[vec![adobe(), steps(1)], body()].concat())));
    assert!(!is_decodable(&jpeg(&[steps(1), frame(PROGRESSIVE, 8, &[0x11]), adobe(), code(0, 0), scan(&[1], 0, &[0])])));
    // Tables that are cut short, a second frame, no frame, no scan.
    assert!(!is_decodable(&jpeg(&[vec![segment(0xdb, &[0; 64])], body()].concat())));
    assert!(!is_decodable(&jpeg(&[vec![segment(0xc4, &[0; 16])], body()].concat())));
    assert!(!is_decodable(&jpeg(&[vec![frame(SEQUENTIAL, 8, &[0x11])], body()].concat())));
    assert!(!is_decodable(&jpeg(&[steps(1), scan(&[1], 63, &[0])])));
    assert!(!is_decodable(&jpeg(&[steps(1)])));
    assert!(!is_decodable(&vec![0xff, 0xd8, 0xff]));
    // What follows the scan.
    let tail = |bytes: &[u8]| {
        let mut data = jpeg(&[vec![steps(1)], body()].concat());
        data.truncate(data.len() - 2);
        data.extend_from_slice(bytes);
        is_decodable(&data)
    };
    assert!(tail(&[]));
    assert!(tail(&[0xff, 0x00, 0xff, 0xd0, 0x12, 0xff]));
    assert!(tail(&[0xff, 0xff, 0xd9, 0xff, 0xc4]));
    assert!(!tail(&[0xff, 0xc4, 0, 2]));
    assert!(!tail(&[0xff, 0xd0, 0xff, 0xee]));
}

#[test]
fn palettes_hold_whole_colours() {
    let chunk = |kind: &[u8; 4], data: &[u8]| {
        [&(data.len() as u32).to_be_bytes()[..], kind, data, &[0; 4]].concat()
    };
    let signature = vec![0x89, 0x50, 0x4e, 0x47, 0x0d, 0x0a, 0x1a, 0x0a];
    let header = |w: u32, h: u32| [&w.to_be_bytes()[..], &h.to_be_bytes(), &[8, 3, 0, 0, 0]].concat();
    let png = |w: u32, h: u32, palette: usize| {
        [
            signature.clone(),
            chunk(b"IHDR", &header(w, h)),
            chunk(b"tEXt", b"k\0v"),
            chunk(b"PLTE", &vec![7; palette]),
            chunk(b"IDAT", &[]),
        ]
        .concat()
    };
    assert!(is_decodable(&png(2, 2, 6)));
    assert!(!is_decodable(&png(2, 2, 4)));
    assert!(!is_decodable(&png(2, 2, 767)));
    assert!(!is_decodable(&png(70_000, 70_000, 6)));
    assert_eq!(load(&png(2, 2, 4)), None);
    assert_eq!(load(&png(2, 2, 6)), None);
    let late = [signature.clone(), chunk(b"IDAT", &[]), chunk(b"PLTE", &[7; 4])].concat();
    assert!(is_decodable(&late));
    assert!(is_decodable(&signature));
    assert!(is_decodable(&b"GIF89a and what follows".to_vec()));
    assert!(is_decodable(&Vec::new()));
}
