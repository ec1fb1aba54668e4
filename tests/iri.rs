use std::cmp::Ordering;
use iref::error::Error;
use iref::fragment::Fragment;
use iref::parsing::{scan, Production};
use iref::pct::{decoded_equiv, pct_eq, pct_octets};
use iref::reference::IriRef;
use iref::segment::Segment;
use iref::utf8::{get_byte, get_char, get_codepoint};

fn resolved(r: &str, base: &str) -> String {
    let r = IriRef::new(r).unwrap();
    let base = IriRef::new(base).unwrap();
    String::from_utf8(r.resolve(&base)).unwrap()
}

#[test]
fn round_trip_display() {
    for s in [
        "http://ex.org/a/b?q=1#frag",
        "foo:bar",
        "//host/path",
        "relative/path?x",
        "",
        "#only",
        "http://[::1]:80/%66oo/é",
    ] {
        let r = IriRef::new(s).unwrap();
        assert_eq!(r.as_bytes(), s.as_bytes());
        assert_eq!(r.len(), s.len());
    }
}

#[test]
fn components_of_reference() {
    let r = IriRef::new("http://user@ex.org:8080/a/b?q=1#frag").unwrap();
    assert_eq!(r.scheme(), Some(&b"http"[..]));
    assert!(r.has_authority());
    assert_eq!(r.authority().as_bytes(), b"user@ex.org:8080");
    assert_eq!(r.path().as_bytes(), b"/a/b");
    assert_eq!(r.query(), Some(&b"q=1"[..]));
    assert_eq!(r.fragment().unwrap().as_bytes(), b"frag");
    let rel = IriRef::new("a/b").unwrap();
    assert_eq!(rel.scheme(), None);
    assert!(!rel.has_authority());
    assert!(rel.authority().is_empty());
    assert_eq!(rel.query(), None);
    assert!(rel.fragment().is_none());
    let empty = IriRef::new("x:?#").unwrap();
    assert_eq!(empty.query(), Some(&b""[..]));
    assert!(empty.fragment().unwrap().is_empty());
}

#[test]
fn percent_decoded_equivalence() {
    let a = IriRef::new("http://ex.org/%66oo").unwrap();
    let b = IriRef::new("http://ex.org/foo").unwrap();
    assert!(a == b);
    assert_ne!(a.as_bytes(), b.as_bytes());
    let c = IriRef::new("http://ex.org/bar").unwrap();
    assert!(a != c);
    let d = IriRef::new("http://ex.org/foo?").unwrap();
    assert!(b != d);
}

#[test]
fn segment_open_flags() {
    let r = IriRef::new("a/b/").unwrap();
    let segs = r.path().segments();
    assert_eq!(segs.len(), 2);
    assert_eq!(segs[0].as_bytes(), b"a");
    assert!(segs[0].is_open());
    assert_eq!(segs[1].as_bytes(), b"b");
    assert!(segs[1].is_open());
    let r = IriRef::new("a/b").unwrap();
    let segs = r.path().segments();
    assert_eq!(segs.len(), 2);
    assert_eq!(segs[0].as_bytes(), b"a");
    assert!(segs[0].is_open());
    assert_eq!(segs[1].as_bytes(), b"b");
    assert!(!segs[1].is_open());
}

#[test]
fn path_segments_join_back() {
    for p in ["/a//b/", "a", "/", "", "/x/y/z", "../a/./b"] {
        let r = IriRef::new(p).unwrap();
        let path = r.path();
        let mut joined: Vec<u8> = Vec::new();
        if path.is_absolute() {
            joined.push(b'/');
        }
        for s in path.segments() {
            joined.extend_from_slice(s.as_bytes());
            if s.is_open() {
                joined.push(b'/');
            }
        }
        assert_eq!(joined, p.as_bytes());
    }
}

#[test]
fn dot_segment_removal() {
    let r = IriRef::new("/a/b/../c/./d").unwrap();
    assert_eq!(r.path().remove_dot_segments(), b"/a/c/d".to_vec());
    let r = IriRef::new("/../a").unwrap();
    assert_eq!(r.path().remove_dot_segments(), b"/a".to_vec());
    let r = IriRef::new("/a/b/..").unwrap();
    assert_eq!(r.path().remove_dot_segments(), b"/a/".to_vec());
    let r = IriRef::new("../a").unwrap();
    assert_eq!(r.path().remove_dot_segments(), b"../a".to_vec());
    let r = IriRef::new("./").unwrap();
    assert_eq!(r.path().remove_dot_segments(), b"".to_vec());
}

#[test]
fn resolution_scenarios() {
    let base = "http://a/b/c/d;p?q";
    assert_eq!(resolved("g", base), "http://a/b/c/g");
    assert_eq!(resolved("../g", base), "http://a/b/g");
    assert_eq!(resolved("/g", base), "http://a/g");
    assert_eq!(resolved("?y", base), "http://a/b/c/d;p?y");
    assert_eq!(resolved("", base), "http://a/b/c/d;p?q");
}

#[test]
fn resolution_more_cases() {
    let base = "http://a/b/c/d;p?q";
    assert_eq!(resolved("g:h", base), "g:h");
    assert_eq!(resolved("//g", base), "http://g");
    assert_eq!(resolved("g/", base), "http://a/b/c/g/");
    assert_eq!(resolved("#s", base), "http://a/b/c/d;p?q#s");
    assert_eq!(resolved("g?y#s", base), "http://a/b/c/g?y#s");
    assert_eq!(resolved(".", base), "http://a/b/c/");
    assert_eq!(resolved("../..", base), "http://a/");
    assert_eq!(resolved("../../../g", base), "http://a/g");
    assert_eq!(resolved("g", "http://a"), "http://a/g");
}

#[test]
fn malformed_percent_encoding_rejected() {
    assert!(Segment::try_from("a%2").is_err());
    assert!(Segment::try_from("a%2g").is_err());
    assert_eq!(Segment::try_from("a%2g"), Err(Error::InvalidSegment));
}

#[test]
fn segment_construction() {
    let s = Segment::try_from("foo/").unwrap();
    assert_eq!(s.as_bytes(), b"foo");
    assert!(s.is_open());
    assert_eq!(s.len(), 3);
    let s = Segment::try_from("foo").unwrap();
    assert!(!s.is_open());
    assert!(Segment::try_from("foo//").is_err());
    assert!(Segment::try_from("a/b").is_err());
    let mut e = Segment::try_from("").unwrap();
    assert!(e.is_empty());
    e.open();
    assert!(e.is_open());
    assert_eq!(Segment::current().as_bytes(), b".");
    assert!(!Segment::current().is_open());
    assert_eq!(Segment::parent().as_bytes(), b"..");
    assert!(Segment::try_from("%66oo").unwrap() == Segment::try_from("foo").unwrap());
    assert!(Segment::try_from("foo/").unwrap() != Segment::try_from("foo").unwrap());
}

#[test]
fn fragment_construction() {
    let f = Fragment::try_from("sec/1?x").unwrap();
    assert_eq!(f.as_bytes(), b"sec/1?x");
    assert!(!f.is_empty());
    assert_eq!(Fragment::try_from("a#b"), Err(Error::InvalidFragment));
    assert!(Fragment::try_from("%41").unwrap() == Fragment::try_from("A").unwrap());
}

#[test]
fn error_variants() {
    assert_eq!(scan(Production::Segment, &[b'a', 0xC3], 0), Err(Error::InvalidEncoding));
    assert!(matches!(IriRef::new("http://a/b c"), Err(Error::InvalidIriRef)));
    assert!(matches!(IriRef::new("a%zz"), Err(Error::InvalidIriRef)));
}

#[test]
fn scanner_lengths() {
    assert_eq!(scan(Production::Segment, b"ab/cd", 0), Ok(2));
    assert_eq!(scan(Production::Path, b"ab/cd?x", 0), Ok(5));
    assert_eq!(scan(Production::Query, b"a/?b#c", 0), Ok(4));
    assert_eq!(scan(Production::Segment, b"a%41b", 0), Ok(5));
    assert_eq!(scan(Production::Segment, b"a%4", 0), Ok(1));
    assert_eq!(scan(Production::Segment, "é".as_bytes(), 0), Ok(2));
    assert_eq!(scan(Production::Segment, "\u{E000}".as_bytes(), 0), Ok(0));
    assert_eq!(scan(Production::Query, "\u{E000}".as_bytes(), 0), Ok(3));
}

#[test]
fn utf8_decoding() {
    assert_eq!(get_byte(b"ab", 1), Some(0x62));
    assert_eq!(get_byte(b"ab", 2), None);
    assert_eq!(get_codepoint(b"a", 0), Ok(Some((0x61, 1))));
    assert_eq!(get_codepoint("é".as_bytes(), 0), Ok(Some((0xE9, 2))));
    assert_eq!(get_codepoint("€".as_bytes(), 0), Ok(Some((0x20AC, 3))));
    assert_eq!(get_codepoint("😀".as_bytes(), 0), Ok(Some((0x1F600, 4))));
    assert_eq!(get_codepoint(b"a", 1), Ok(None));
    assert_eq!(get_codepoint(&[0xC3], 0), Err(()));
    assert_eq!(get_codepoint(&[0xFF], 0), Err(()));
    assert_eq!(get_codepoint(&[0xC3, 0x41], 0), Err(()));
    assert_eq!(get_char("é".as_bytes(), 0), Ok(Some(('é', 2))));
    assert_eq!(get_char(&[0xED, 0xA0, 0x80], 0), Err(()));
    assert_eq!(get_char(b"", 0), Ok(None));
}

#[test]
fn percent_comparison() {
    assert!(pct_eq(b"%66oo", b"foo"));
    assert!(!pct_eq(b"%66oo", b"fob"));
    assert!(pct_eq(b"%FF", b"%ff"));
    assert!(!pct_eq(b"%FF", b"%FE"));
    assert!(pct_eq(b"%FF", b"%FF"));
    assert!(decoded_equiv(b"x", &Some("a".to_string()), b"y", &Some("a".to_string())));
    assert!(!decoded_equiv(b"x", &Some("a".to_string()), b"x", &None));
    assert!(!decoded_equiv(b"x", &None, b"y", &None));
}

#[test]
fn segment_display_form() {
    assert_eq!(Segment::try_from("foo/").unwrap().to_bytes(), b"foo/".to_vec());
    assert_eq!(Segment::try_from("foo").unwrap().to_bytes(), b"foo".to_vec());
}

#[test]
fn empty_authority_equals_no_authority() {
    let a = IriRef::new("///a").unwrap();
    let b = IriRef::new("/a").unwrap();
    assert!(a.has_authority());
    assert!(!b.has_authority());
    assert!(a == b);
    assert!(IriRef::new("//x/a").unwrap() != b);
}

#[test]
fn byte_buffer_parsing() {
    let truncated = [0x61u8, 0xE2, 0x82];
    assert!(matches!(IriRef::from_bytes(&truncated[..]), Err(Error::InvalidEncoding)));
    let bad_lead = [0x61u8, 0xFF];
    assert!(matches!(IriRef::from_bytes(&bad_lead[..]), Err(Error::InvalidEncoding)));
    let ok = IriRef::from_bytes(b"http://a/b").unwrap();
    assert_eq!(ok.path().as_bytes(), b"/b");
}

#[test]
fn ucschar_last_range() {
    assert_eq!(scan(Production::Segment, "\u{E0001}".as_bytes(), 0), Ok(0));
    assert_eq!(scan(Production::Segment, "\u{E1000}".as_bytes(), 0), Ok(4));
    assert_eq!(scan(Production::Segment, "\u{1F600}".as_bytes(), 0), Ok(4));
}

#[test]
fn percent_octets() {
    assert_eq!(pct_octets(b"a%41%ff%2"), vec![b'a', 0x41, 0xFF, b'%', b'2']);
    assert_eq!(pct_octets(b""), Vec::<u8>::new());
}

#[test]
fn percent_decoded_ordering() {
    let a = Segment::try_from("abc").unwrap();
    let b = Segment::try_from("abd").unwrap();
    assert_eq!(a.partial_cmp(&b), Some(Ordering::Less));
    assert_eq!(b.partial_cmp(&a), Some(Ordering::Greater));
    let c = Segment::try_from("%61bc").unwrap();
    assert_eq!(a.partial_cmp(&c), Some(Ordering::Equal));
    let d = Segment::try_from("abc/").unwrap();
    assert_eq!(a.partial_cmp(&d), Some(Ordering::Less));
    assert!(a < b);
    let f = Fragment::try_from("%42").unwrap();
    let g = Fragment::try_from("A").unwrap();
    assert_eq!(f.partial_cmp(&g), Some(Ordering::Greater));
    assert_eq!(g.partial_cmp(&f), Some(Ordering::Less));
}

#[test]
fn comparison_with_strings() {
    let s = Segment::try_from("%66oo").unwrap();
    assert!(s == "foo");
    assert!(s != "%66oo");
    let f = Fragment::try_from("a%20b").unwrap();
    assert!(f == "a%20b");
    assert!(f != "a b");
    let r = IriRef::new("http://ex.org/%66oo").unwrap();
    assert!(r == "http://ex.org/foo");
    assert!(r != "http://ex.org/bar");
    assert!(r != "http://ex.org/b c");
}
