use cantari::oto::{Oto, OtoError, OtoIndex};

#[test]
fn oto_line() {
    let line = "_ああR.wav=- あ2_B3,149.905,171.608,-866.658,46.608,0.0";
    let oto = Oto::new(line, "voice").unwrap();
    assert_eq!(oto.offset.parse::<f64>().unwrap(), 149.905);
    assert_eq!(oto.consonant.parse::<f64>().unwrap(), 171.608);
    assert_eq!(oto.cut_off.parse::<f64>().unwrap(), -866.658);
    assert_eq!(oto.preutter.parse::<f64>().unwrap(), 46.608);
    assert_eq!(oto.overlap.parse::<f64>().unwrap(), 0.0);
    assert_eq!(oto.names, vec!["_ああR".to_string(), "- あ2_B3".to_string()]);
    assert_eq!(oto.file, "_ああR.wav");
    assert_eq!(oto.frq, "_ああR_wav.frq");
    assert_eq!(oto.root, "voice");
}

#[test]
fn oto_line_without_alias() {
    let oto = Oto::new("か.wav=,1,2,3,4,5", "r").unwrap();
    assert_eq!(oto.names, vec!["か".to_string()]);
}

#[test]
fn oto_line_errors() {
    assert_eq!(Oto::new("just text", "r").unwrap_err(), OtoError::Malformed);
    assert_eq!(Oto::new("=a,1,2,3,4,5", "r").unwrap_err(), OtoError::Malformed);
    assert_eq!(Oto::new("a.wav=a,1,2,3,4", "r").unwrap_err(), OtoError::Malformed);
    assert_eq!(Oto::new("a.mp3=a,1,2,3,4,5", "r").unwrap_err(), OtoError::NotWav);
    assert_eq!(Oto::new("a.wav=a,1,2,x,4,5", "r").unwrap_err(), OtoError::BadNumber);
}

#[test]
fn oto_line_number_forms() {
    assert!(Oto::new("a.wav=a,1e3,-2.5,.5,+4.,inf", "r").is_ok());
    assert!(Oto::new("a.wav=a,1,2,3,4,NaN", "r").is_ok());
    assert_eq!(Oto::new("a.wav=a,1,2,3,4,.", "r").unwrap_err(), OtoError::BadNumber);
    assert_eq!(Oto::new("a.wav=a,1,2,3,4,1e", "r").unwrap_err(), OtoError::BadNumber);
}

#[test]
fn oto_line_alias_with_equals_and_commas() {
    assert_eq!(Oto::new("a.wav=x=y,1,2,3,4,5", "r").unwrap_err(), OtoError::NotWav);
    let oto = Oto::new("a.wav=x.wav=y,1,2,3,4,5", "r").unwrap();
    assert_eq!(oto.file, "a.wav=x.wav");
    assert_eq!(oto.names[1], "y");
    let oto = Oto::new("a.wav=x,,1,2,3,4,5", "r").unwrap();
    assert_eq!(oto.names[1], "x,");
}

#[test]
fn oto_ini_index() {
    let ini = "a.wav=- あ,1,2,3,4,5\r\nbad line\nb.wav=- あ,1,2,3,4,5\nc.wav=,1,2,3,4,5\n";
    let index = Oto::from_oto_ini(ini, "dir");
    assert_eq!(index.len(), 3);
    let i = index.get(&"- あ".to_string()).unwrap();
    assert_eq!(index.entries[i].file, "b.wav");
    let a = index.get(&"a".to_string()).unwrap();
    assert_eq!(index.entries[a].file, "a.wav");
    assert!(index.get(&"c".to_string()).is_some());
    assert!(index.get(&"d".to_string()).is_none());
}

#[test]
fn oto_index_merges_files() {
    let mut index = OtoIndex::new();
    assert!(index.is_empty());
    index.add_oto_ini("a.wav=あ,1,2,3,4,5", "one");
    index.add_oto_ini("b.wav=あ,1,2,3,4,5", "two");
    let i = index.get(&"あ".to_string()).unwrap();
    assert_eq!(index.entries[i].root, "two");
    assert_eq!(index.len(), 2);
}
