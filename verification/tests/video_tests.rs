use fox_cull::video::{
    creation_time_from_banner, creation_time_from_text, ensure_poster, filmstrip_grid, filmstrip_tile,
    parse_iso, poster_args, proxy_args, still_args, PosterStep, FILMSTRIP_COLS, FILMSTRIP_TILE_W,
};

fn strs(v: &[&str]) -> Vec<String> {
    v.iter().map(|s| s.to_string()).collect()
}

#[test]
fn poster_steps() {
    assert_eq!(
        ensure_poster("/c/v1.jpg".to_string(), true, None),
        Ok(PosterStep::Ready("/c/v1.jpg".to_string()))
    );
    assert_eq!(ensure_poster("/c/v1.jpg".to_string(), false, None), Err("ffmpeg not available".to_string()));
    assert_eq!(
        ensure_poster("/c/v1.jpg".to_string(), false, Some("/bin/ffmpeg".to_string())),
        Ok(PosterStep::Make { ffmpeg: "/bin/ffmpeg".to_string(), out: "/c/v1.jpg".to_string() })
    );
}

#[test]
fn iso_timestamps() {
    assert_eq!(parse_iso("2024-05-01T12:34:56.000000Z"), Some(1714566896));
    assert_eq!(parse_iso("2024-05-01T12:34:56"), Some(1714566896));
    assert_eq!(parse_iso("1970-01-01T00:00:00Z"), Some(0));
    assert_eq!(parse_iso("1969-12-31T23:59:59Z"), None);
    assert_eq!(parse_iso("2024-13-01T00:00:00Z"), None);
    assert_eq!(parse_iso("2024-05-01T12:34"), None);
    assert_eq!(parse_iso("2024- 5-01T12:34:56"), None);
}

#[test]
fn creation_time_from_banner_text() {
    let banner = "Input #0, mov,mp4\n  Metadata:\n    creation_time   : 2024-05-01T12:34:56.000000Z\n  Duration: 00:00:10.00";
    assert_eq!(creation_time_from_text(banner), Some(1714566896));
    assert_eq!(creation_time_from_text("no metadata here"), None);
    assert_eq!(creation_time_from_text("creation_time"), None);
    assert_eq!(creation_time_from_text("creation_time: garbage"), None);
    assert_eq!(creation_time_from_banner(banner.as_bytes()), Some(1714566896));
    let mut bytes = vec![0xFFu8, 0xFE];
    bytes.extend_from_slice(banner.as_bytes());
    assert_eq!(creation_time_from_banner(&bytes), Some(1714566896));
}

#[test]
fn filmstrip_geometry() {
    assert_eq!(FILMSTRIP_COLS, 10);
    assert_eq!(FILMSTRIP_TILE_W, 160);
    let g = filmstrip_grid(5);
    assert_eq!((g.count, g.cols, g.rows), (16, 10, 2));
    let g = filmstrip_grid(37);
    assert_eq!((g.count, g.cols, g.rows), (37, 10, 4));
    let g = filmstrip_grid(500);
    assert_eq!((g.count, g.cols, g.rows), (100, 10, 10));
    assert_eq!(filmstrip_tile(1600, 900, 10, 2), (160, 450));
    assert_eq!(filmstrip_tile(5, 1, 10, 2), (1, 1));
}

#[test]
fn ffmpeg_command_lines() {
    assert_eq!(
        poster_args("in.mp4", "out.jpg", true),
        strs(&["-v", "error", "-ss", "1", "-i", "in.mp4", "-frames:v", "1", "-vf",
            "scale=w=480:h=480:force_original_aspect_ratio=decrease", "-y", "out.jpg"])
    );
    assert_eq!(
        poster_args("in.mp4", "out.jpg", false),
        strs(&["-v", "error", "-i", "in.mp4", "-frames:v", "1", "-vf",
            "scale=w=480:h=480:force_original_aspect_ratio=decrease", "-y", "out.jpg"])
    );
    assert_eq!(
        still_args("a.heic", "o.jpg", 320),
        strs(&["-v", "error", "-i", "a.heic", "-frames:v", "1", "-vf",
            "scale=w=320:h=320:force_original_aspect_ratio=decrease", "-q:v", "3", "-y", "o.jpg"])
    );
    let p = proxy_args("c.mov", "p.part.mp4");
    assert_eq!(p.len(), 29);
    assert_eq!(p[3], "c.mov");
    assert_eq!(p[9], "scale=w=1920:h=1920:force_original_aspect_ratio=decrease:force_divisible_by=2");
    assert_eq!(p[28], "p.part.mp4");
}

#[test]
fn poster_retries_and_proxy_steps() {
    assert_eq!(fox_cull::video::poster_after_try(true, true), fox_cull::video::PosterTry::Done);
    assert_eq!(fox_cull::video::poster_after_try(true, false), fox_cull::video::PosterTry::FromStart);
    assert_eq!(
        fox_cull::video::poster_after_try(false, false),
        fox_cull::video::PosterTry::Failed("ffmpeg could not extract a poster frame".to_string())
    );
    assert_eq!(
        fox_cull::video::ensure_proxy_step("/c/p1.mp4".to_string(), false, None),
        Err("ffmpeg not available".to_string())
    );
    assert_eq!(
        fox_cull::video::ensure_proxy_step("/c/p1.mp4".to_string(), true, None),
        Ok(PosterStep::Ready("/c/p1.mp4".to_string()))
    );
}
