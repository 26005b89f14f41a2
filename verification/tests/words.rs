use troozn_proxy::encoding::{
    base64_encode, byte_range, hex_lower, hex_value, percent_decode_minimal, percent_decode_path,
    percent_encode_component,
};
use troozn_proxy::ids::{cache_key, deterministic_uuid, item_id_for_url, stable_item_id};
use troozn_proxy::media_path::{
    file_name, is_root, join_media_path, media_basename, mime_type_for_path, normalize_media_path,
    normalize_proxy_path, parent_media_path, percent_encode_media_path, resolve_http_media_path,
    resolve_path, split_proxy_path, PathError,
};
use troozn_proxy::numbers::{
    decimal, padded_decimal, padded_hex, parse_radix, parse_u16, parse_u64, parse_usize,
    signed_decimal,
};
use troozn_proxy::order::{sort_positions, SortKey};
use troozn_proxy::text::{
    byte_len, find, is_control, is_white_space, join, lines, replace, split, split_once,
    split_whitespace, strip_prefixes, strip_suffixes, take_chars, to_ascii_lower, to_ascii_upper,
    trim, CharSet,
};
use std::hash::Hasher;

#[test]
fn white_space_and_control_characters_are_those_of_unicode() {
    for code in 0..=0x10ffffu32 {
        if let Some(c) = char::from_u32(code) {
            assert_eq!(is_white_space(c), c.is_whitespace(), "{code:x}");
            assert_eq!(is_control(c), c.is_control(), "{code:x}");
        }
    }
}

#[test]
fn texts_are_taken_apart_as_in_std() {
    for s in ["", "a", "a\nb", "a\r\nb\r\n", "\n\n", "x\ry\n", "fin\r"] {
        let ours = lines(s);
        let theirs: Vec<&str> = s.lines().collect();
        assert_eq!(ours, theirs);
    }
    for s in ["", "/", "a/b", "/a//b/", "é/ü"] {
        let theirs: Vec<&str> = s.split('/').collect();
        assert_eq!(split(s, CharSet::Only('/')), theirs);
    }
    for s in ["", "  ", " a \t b\u{a0}c\n", "x"] {
        let theirs: Vec<&str> = s.split_whitespace().collect();
        assert_eq!(split_whitespace(s), theirs);
        assert_eq!(trim(s), s.trim());
    }
    assert_eq!(split_once("a=b=c", CharSet::Only('=')), Some(("a".to_string(), "b=c".to_string())));
    assert_eq!(split_once("abc", CharSet::Only('=')), None);
}

#[test]
fn texts_are_changed_as_in_std() {
    assert_eq!(replace("aXaXXb", "X", "--"), "aXaXXb".replace("X", "--"));
    assert_eq!(replace("aaa", "aa", "b"), "aaa".replace("aa", "b"));
    assert_eq!(strip_suffixes("a.ts.ts", ".ts"), "a");
    assert_eq!(strip_prefixes("www.www.x", "www."), "x");
    assert_eq!(to_ascii_lower("ÀBc"), "Àbc");
    assert_eq!(to_ascii_upper("éBc"), "éBC");
    assert_eq!(take_chars("éàü", 2), "éà");
    assert_eq!(byte_len("éa"), 3);
    assert_eq!(find("héllo", "llo"), Some(2));
    assert_eq!(find("hello", "z"), None);
    let parts = vec!["a".to_string(), "b".to_string()];
    assert_eq!(join(&parts, ", "), "a, b");
}

#[test]
fn numbers_are_written() {
    assert_eq!(decimal(0), "0");
    assert_eq!(decimal(u64::MAX), "18446744073709551615");
    assert_eq!(padded_decimal(7, 4), "0007");
    assert_eq!(padded_decimal(12345, 4), "12345");
    assert_eq!(padded_hex(0xab, 4), "00ab");
    assert_eq!(signed_decimal(i64::MIN), "-9223372036854775808");
    assert_eq!(signed_decimal(42), "42");
}

#[test]
fn numbers_are_read_as_in_std() {
    for s in ["", "+", "+7", "-1", "007", "12a", " 1", "65535", "65536", "18446744073709551615",
        "18446744073709551616"]
    {
        assert_eq!(parse_u64(s), s.parse::<u64>().ok(), "{s}");
        assert_eq!(parse_u16(s), s.parse::<u16>().ok(), "{s}");
        assert_eq!(parse_usize(s), s.parse::<usize>().ok(), "{s}");
    }
    assert_eq!(parse_radix("fF", 16, 1000), Some(255));
    assert_eq!(parse_radix("fF", 16, 254), None);
}

#[test]
fn written_numbers_are_read_back() {
    for n in [0u64, 1, 9, 10, 9999, 10000, u64::MAX] {
        assert_eq!(parse_u64(&decimal(n)), Some(n));
        assert_eq!(parse_u64(&padded_decimal(n, 4)), Some(n));
    }
}

#[test]
fn components_are_percent_encoded() {
    assert_eq!(percent_encode_component("Pixel TROOZN"), "Pixel%20TROOZN");
    assert_eq!(percent_encode_component("a-b_c.d~e"), "a-b_c.d~e");
    assert_eq!(percent_encode_component("/é%"), "%2F%C3%A9%25");
    assert_eq!(percent_encode_component("plain"), "plain");
}

#[test]
fn encoded_components_are_decoded_again() {
    for s in ["", "a b", "é/%2F+", "%", "100%25"] {
        assert_eq!(percent_decode_path(&percent_encode_component(s)), s);
    }
    assert_eq!(percent_decode_path("without escapes"), "without escapes");
}

#[test]
fn broken_escapes_stay() {
    assert_eq!(percent_decode_path("%zz"), "%zz");
    assert_eq!(percent_decode_path("a%2"), "a%2");
    assert_eq!(percent_decode_path("a%20"), "a ");
    assert_eq!(percent_decode_path("%ff"), "%ff");
    assert_eq!(percent_decode_path("%C3%A9"), "é");
}

#[test]
fn query_values_are_decoded_byte_by_byte() {
    assert_eq!(percent_decode_minimal("a+b%20c"), "a b c");
    assert_eq!(percent_decode_minimal("%C3%A9"), "Ã©");
    assert_eq!(percent_decode_minimal("é"), "Ã©");
    assert_eq!(percent_decode_minimal("%+1x"), "\u{1}x");
    assert_eq!(percent_decode_minimal("%zz"), "%zz");
    assert_eq!(percent_decode_minimal("%41"), "A");
}

#[test]
fn hexadecimal_digits_have_values() {
    assert_eq!(hex_value(b'0'), Some(0));
    assert_eq!(hex_value(b'f'), Some(15));
    assert_eq!(hex_value(b'A'), Some(10));
    assert_eq!(hex_value(b'g'), None);
    assert_eq!(hex_lower(&[0, 255, 16]), "00ff10");
    assert_eq!(byte_range(&[1, 2, 3, 4], 1, 3), vec![2, 3]);
}

#[test]
fn base64_is_padded() {
    assert_eq!(base64_encode(b""), "");
    assert_eq!(base64_encode(b"f"), "Zg==");
    assert_eq!(base64_encode(b"fo"), "Zm8=");
    assert_eq!(base64_encode(b"foo"), "Zm9v");
    assert_eq!(base64_encode(b"kodi:secret"), "a29kaTpzZWNyZXQ=");
    assert_eq!(base64_encode(&[255, 254, 253, 0]), "//79AA==");
}

#[test]
fn items_are_named_by_their_digest() {
    assert_eq!(item_id_for_url("abc"), "a9993e364706816a");
    let url = "https://www.youtube.com/watch?v=dQw4w9WgXcQ";
    assert_eq!(item_id_for_url(url), "df2c6f7afc1a5878");
    assert_eq!(stable_item_id(url), item_id_for_url(url));
}

#[test]
fn cached_files_are_named_by_a_hash() {
    let mut hasher = std::collections::hash_map::DefaultHasher::new();
    hasher.write(b"Pixel");
    hasher.write_u8(0);
    hasher.write(b"/a.mp4");
    assert_eq!(cache_key("Pixel", "/a.mp4"), format!("{:016x}", hasher.finish()));
    assert_ne!(cache_key("Pixel", "/a.mp4"), cache_key("Pixel/", "a.mp4"));
    assert_eq!(cache_key("", "").len(), 16);
}

#[test]
fn uuids_depend_on_the_text_alone() {
    let mut first = std::collections::hash_map::DefaultHasher::new();
    first.write(b"phone:a");
    let a = first.finish();
    let mut second = std::collections::hash_map::DefaultHasher::new();
    second.write(b"troozn-upnp");
    second.write(b"phone:a");
    let b = second.finish();
    let expected = format!(
        "{:08x}-{:04x}-{:04x}-{:04x}-{:012x}",
        (a >> 32) as u32,
        ((a >> 16) & 0xffff) as u16,
        (a & 0xffff) as u16,
        (b >> 48) as u16,
        b & 0x0000ffffffffffff,
    );
    assert_eq!(deterministic_uuid("phone:a"), expected);
    assert_eq!(deterministic_uuid("x").len(), 36);
    assert_ne!(deterministic_uuid("x"), deterministic_uuid("y"));
    for (i, c) in deterministic_uuid("x").chars().enumerate() {
        if [8, 13, 18, 23].contains(&i) {
            assert_eq!(c, '-');
        } else {
            assert!(c.is_ascii_digit() || ('a'..='f').contains(&c));
        }
    }
}

#[test]
fn media_paths_are_normalized() {
    assert_eq!(normalize_media_path(""), "/");
    assert_eq!(normalize_media_path("\\a\\.\\b//c/"), "/a/b/c");
    assert_eq!(normalize_media_path("../x"), "/../x");
    let once = normalize_media_path("a/./b/");
    assert_eq!(normalize_media_path(&once), once);
}

#[test]
fn media_paths_have_parents_and_children() {
    assert_eq!(parent_media_path("/"), "/");
    assert_eq!(parent_media_path("/a"), "/");
    assert_eq!(parent_media_path("/a/b/"), "/a");
    assert_eq!(join_media_path("/", "x"), "/x");
    assert_eq!(join_media_path("a/b/", "/x/"), "/a/b/x");
    assert_eq!(parent_media_path(&join_media_path("/a/b", "x.mp4")), "/a/b");
    assert_eq!(media_basename("/a/b.mp4"), Some("b.mp4".to_string()));
    assert_eq!(media_basename("/"), None);
    assert_eq!(percent_encode_media_path("/a b/é.mp4"), "a%20b/%C3%A9.mp4");
    assert_eq!(percent_encode_media_path("/"), "");
}

#[test]
fn media_urls_name_a_phone_and_a_file() {
    assert_eq!(
        resolve_http_media_path("Pixel%20TROOZN/DCIM/a.mp4"),
        Ok(("Pixel TROOZN".to_string(), "/DCIM/a.mp4".to_string()))
    );
    assert_eq!(resolve_http_media_path("/"), Err(PathError::MissingPhone));
    assert_eq!(resolve_http_media_path("Pixel/"), Err(PathError::MissingFile));
    assert_eq!(PathError::MissingPhone.url_message(), "telephone manquant dans l'URL media");
    assert_eq!(PathError::MissingFile.url_message(), "fichier manquant dans l'URL media");
}

#[test]
fn proxy_paths_are_cleaned_and_split() {
    assert_eq!(normalize_proxy_path("  "), "/");
    assert_eq!(normalize_proxy_path("ftp://127.0.0.1:2120/Pixel/./a"), "/Pixel/a");
    assert_eq!(normalize_proxy_path("ftp://localhost:2120"), "/");
    assert_eq!(normalize_proxy_path("Pixel\\b"), "/Pixel/b");
    assert_eq!(
        split_proxy_path("/Pixel/a/b"),
        Ok(("Pixel".to_string(), "/a/b".to_string()))
    );
    assert_eq!(split_proxy_path("/"), Err(PathError::MissingPhone));
    assert!(is_root("/"));
    assert!(!is_root("/a"));
    assert_eq!(resolve_path("/Pixel/a/b"), Ok(("Pixel".to_string(), "/a/b".to_string())));
    assert_eq!(resolve_path("/Pixel"), Ok(("Pixel".to_string(), "/".to_string())));
    assert_eq!(resolve_path("/"), Err(PathError::MissingPhone));
}

#[test]
fn file_names_are_found_as_in_std() {
    for path in ["a/b.ts", "/a/b/", "", "/", "..", "a/..", "a/.", "./x", "item-0001-00001.ts"] {
        let theirs = std::path::Path::new(path)
            .file_name()
            .map(|n| n.to_string_lossy().into_owned());
        assert_eq!(file_name(path), theirs, "{path}");
    }
}

#[test]
fn media_types_follow_the_extension() {
    assert_eq!(mime_type_for_path("/a/b.MP3"), "audio/mpeg");
    assert_eq!(mime_type_for_path("x.mkv"), "video/x-matroska");
    assert_eq!(mime_type_for_path("x.jpeg"), "image/jpeg");
    assert_eq!(mime_type_for_path("mp4"), "video/mp4");
    assert_eq!(mime_type_for_path("x.txt"), "application/octet-stream");
}

#[test]
fn equal_keys_keep_their_order() {
    let key = |number: u128, text: &str| SortKey { number, text: text.to_string() };
    let keys = vec![key(2, "a"), key(1, "b"), key(1, "a"), key(2, "a"), key(1, "é")];
    assert_eq!(sort_positions(&keys), vec![2, 1, 4, 0, 3]);
}
