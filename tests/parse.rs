use fas_rs::parse::{parse_fps, parse_frametime};

#[test]
fn test_parse() {
    let fbt_info = r"##clus	max	min	
    3	2	0	
    
    clus	num	c	r	
    0	4	-1	-1
    1	3	-1	-1
    2	1	-1	-1
    enable	idleprefer	max_blc	max_pid	max_bufID	dfps	vsync
    1	0		13	8606	0x136d00000021	120	15827015268850
    
    pid	bufid		perfidx	
    2898	0x9d700000001	0
    8606	0x136d00000021	13
    26994	0x6955000001a7	12##";
    assert_eq!(parse_frametime(fbt_info), Some(15827015268850));

    let fpsgo_status = r"##tid	bufID		name		currentFPS	targetFPS	FPS_margin	FPS_margin_GPU	FPS_margin_thrs	sbe_state	HWUI
    26994	0x69550000025d	bin.mt.plus	60		120		0		0		0		0		1
    26994	0x69550000025c	bin.mt.plus	115		120		0		0		0		0		1
    8606	0x136d0000003f	curitycenter:ui	110		120		0		0		0		0		1
    2756	0x9d9000002ce	com.miui.home	0		120		0		0		0		0		1
    2898	0x9d700000001	ndroid.systemui	-1		10		0		0		0		0		1
    24678	0x12fb00000009	m.omarea.vtools	120		10		0		0		0		0		1
    24678	0x12fb0000000b	m.omarea.vtools	0		10		0		0		0		0		1
    fstb_self_ctrl_fps_enable:1
    fstb_is_cam_active:0
    dfps_ceiling:120##";

    assert_eq!(parse_fps(fpsgo_status), Some(120));
}

#[test]
fn frametime_disabled_flag_is_absent() {
    let mut text = String::new();
    for _ in 0..8 {
        text.push_str("head\n");
    }
    text.push_str("0\t0\t13\t8606\t0x1\t120\t15827015268850\n");
    assert_eq!(parse_frametime(&text), None);
}

#[test]
fn frametime_flag_must_be_exactly_one() {
    let mut text = String::new();
    for _ in 0..8 {
        text.push_str("x\n");
    }
    text.push_str("01 0 13 8606 0x1 120 777\n");
    assert_eq!(parse_frametime(&text), None);
}

#[test]
fn frametime_enabled_plain_table() {
    let mut text = String::new();
    for _ in 0..8 {
        text.push_str("x\r\n");
    }
    text.push_str("1 0 13 8606 0x1 120 +777\r\nafter\r\n");
    assert_eq!(parse_frametime(&text), Some(777));
}

#[test]
fn frametime_missing_line_or_token_is_absent() {
    assert_eq!(parse_frametime(""), None);
    assert_eq!(parse_frametime("1 0 0 0 0 0 5"), None);
    let mut text = String::new();
    for _ in 0..8 {
        text.push_str("x\n");
    }
    text.push_str("1 0 13 8606 0x1 120\n");
    assert_eq!(parse_frametime(&text), None);
}

#[test]
fn frametime_overflow_or_garbage_is_absent() {
    let mut text = String::new();
    for _ in 0..8 {
        text.push_str("x\n");
    }
    let mut big = text.clone();
    big.push_str("1 0 0 0 0 0 18446744073709551616\n");
    assert_eq!(parse_frametime(&big), None);
    let mut max = text.clone();
    max.push_str("1 0 0 0 0 0 18446744073709551615\n");
    assert_eq!(parse_frametime(&max), Some(u64::MAX));
    let mut bad = text.clone();
    bad.push_str("1 0 0 0 0 0 12a\n");
    assert_eq!(parse_frametime(&bad), None);
}

#[test]
fn fps_no_readable_row_is_absent() {
    let text = "tid bufID name currentFPS\n1 0x1 a -1\n2 0x2 b\nx:1\ny:0\nz:60\n";
    assert_eq!(parse_fps(text), None);
    assert_eq!(parse_fps(""), None);
    assert_eq!(parse_fps("header\na:1\nb:2\nc:3\n"), None);
}

#[test]
fn fps_ignores_header_and_trailer() {
    let text = "1 2 3 999\n1 0x1 a 30\n1 0x2 b 45\n1 2 3 500\n1 2 3 600\n1 2 3 700";
    assert_eq!(parse_fps(text), Some(45));
}

#[test]
fn fps_single_row() {
    let text = "h\n7 0x1 app 90 90\nm1\nm2\nm3\n";
    assert_eq!(parse_fps(text), Some(90));
}

