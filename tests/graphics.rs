use kernel::console::Console;
use kernel::framebuffer::{init, Framebuffer, FramebufferInfo};
use kernel::shell::{
    parse_color, parse_command, parse_i32, parse_usize, set_fg_color, split_first_space, split_words, str_eq, Command,
};

fn info(bpp: usize, bgr: bool) -> FramebufferInfo {
    FramebufferInfo { width: 4, height: 3, stride: 5, bytes_per_pixel: bpp, is_bgr: bgr }
}

fn px(fb: &Framebuffer, x: usize, y: usize) -> Vec<u8> {
    let i = fb.info();
    let o = (y * i.stride + x) * i.bytes_per_pixel;
    fb.buffer()[o..o + i.bytes_per_pixel].to_vec()
}

#[test]
fn put_pixel_orders_channels_and_clips() {
    let mut fb = Framebuffer::new(vec![0u8; 5 * 3 * 4], info(4, false));
    fb.put_pixel(1, 2, 10, 20, 30);
    assert_eq!(px(&fb, 1, 2), vec![10, 20, 30, 0xFF]);
    let mut bgr = Framebuffer::new(vec![0u8; 5 * 3 * 3], info(3, true));
    bgr.put_pixel(3, 0, 10, 20, 30);
    assert_eq!(px(&bgr, 3, 0), vec![30, 20, 10]);
    let before = bgr.buffer().to_vec();
    bgr.put_pixel(4, 0, 1, 1, 1);
    bgr.put_pixel(0, 3, 1, 1, 1);
    assert_eq!(bgr.buffer(), &before[..]);
    assert_eq!((fb.width(), fb.height()), (4, 3));
}

#[test]
fn clear_fills_visible_pixels_only() {
    let fb = init(vec![7u8; 5 * 3 * 3], info(3, false));
    for y in 0..3 {
        for x in 0..4 {
            assert_eq!(px(&fb, x, y), vec![0, 0, 0]);
        }
        // The padding pixel of each row is untouched.
        assert_eq!(px(&fb, 4, y), vec![7, 7, 7]);
    }
}

#[test]
fn fill_rect_and_hline_clip() {
    let mut fb = Framebuffer::new(vec![0u8; 5 * 3 * 3], info(3, false));
    fb.fill_rect(2, 1, 10, 10, 9, 9, 9);
    assert_eq!(px(&fb, 1, 1), vec![0, 0, 0]);
    assert_eq!(px(&fb, 2, 1), vec![9, 9, 9]);
    assert_eq!(px(&fb, 3, 2), vec![9, 9, 9]);
    assert_eq!(px(&fb, 3, 0), vec![0, 0, 0]);
    let mut fb = Framebuffer::new(vec![0u8; 5 * 3 * 3], info(3, false));
    fb.draw_hline(-5, 1, 0, 1, 2, 3);
    assert_eq!(px(&fb, 0, 0), vec![1, 2, 3]);
    assert_eq!(px(&fb, 1, 0), vec![1, 2, 3]);
    assert_eq!(px(&fb, 2, 0), vec![0, 0, 0]);
    fb.draw_hline(2, -1, 1, 4, 4, 4);
    assert_eq!(px(&fb, 3, 1), vec![4, 4, 4]);
    fb.draw_hline(0, 3, 3, 5, 5, 5);
    fb.draw_hline(0, 3, -1, 5, 5, 5);
    assert_eq!(px(&fb, 0, 2), vec![0, 0, 0]);
}

#[test]
fn scroll_moves_rows_up_and_clears_bottom() {
    let mut fb = Framebuffer::new(vec![0u8; 5 * 3 * 3], info(3, false));
    fb.put_pixel(0, 1, 1, 1, 1);
    fb.put_pixel(0, 2, 2, 2, 2);
    fb.scroll_up(1, 8, 8, 8);
    assert_eq!(px(&fb, 0, 0), vec![1, 1, 1]);
    assert_eq!(px(&fb, 0, 1), vec![2, 2, 2]);
    assert_eq!(px(&fb, 0, 2), vec![8, 8, 8]);
    assert_eq!(px(&fb, 3, 2), vec![8, 8, 8]);
    fb.scroll_up(3, 6, 6, 6);
    assert_eq!(px(&fb, 0, 0), vec![6, 6, 6]);
}

#[test]
fn color_names() {
    assert_eq!(parse_color("white"), Some((255, 255, 255)));
    assert_eq!(parse_color("orange"), Some((255, 165, 0)));
    assert_eq!(parse_color("grey"), Some((128, 128, 128)));
    assert_eq!(parse_color("gray"), Some((128, 128, 128)));
    assert_eq!(parse_color("Red"), None);
    assert_eq!(parse_color(""), None);
    assert!(str_eq("abc", "abc"));
    assert!(!str_eq("abc", "abd"));
}

#[test]
fn set_fg_color_changes_only_known_names() {
    let mut c = Console::new(640, 480);
    assert!(set_fg_color(&mut c, "cyan"));
    assert_eq!(c.fg(), (0, 255, 255));
    assert!(!set_fg_color(&mut c, "purple"));
    assert_eq!(c.fg(), (0, 255, 255));
}

fn big() -> Framebuffer {
    Framebuffer::new(vec![0u8; 16 * 16 * 3], FramebufferInfo { width: 16, height: 16, stride: 16, bytes_per_pixel: 3, is_bgr: false })
}

fn lit(fb: &Framebuffer) -> Vec<(usize, usize)> {
    let mut v = Vec::new();
    for y in 0..16 {
        for x in 0..16 {
            if px(fb, x, y) != vec![0, 0, 0] {
                v.push((x, y));
            }
        }
    }
    v
}

#[test]
fn bresenham_lines() {
    let mut fb = big();
    fb.draw_line(0, 0, 3, 3, 1, 1, 1);
    assert_eq!(lit(&fb), vec![(0, 0), (1, 1), (2, 2), (3, 3)]);
    let mut fb = big();
    fb.draw_line(4, 1, 0, 1, 1, 1, 1);
    assert_eq!(lit(&fb), vec![(0, 1), (1, 1), (2, 1), (3, 1), (4, 1)]);
    let mut fb = big();
    fb.draw_line(0, 0, 4, 2, 1, 1, 1);
    assert_eq!(lit(&fb), vec![(0, 0), (1, 1), (2, 1), (3, 2), (4, 2)]);
    let mut fb = big();
    fb.draw_line(-2, 0, 1, 0, 1, 1, 1);
    assert_eq!(lit(&fb), vec![(0, 0), (1, 0)]);
}

#[test]
fn midpoint_circle_is_filled_and_symmetric() {
    let mut fb = big();
    fb.draw_circle(8, 8, 2, 5, 5, 5);
    let pts = lit(&fb);
    assert!(pts.contains(&(8, 8)));
    assert!(pts.contains(&(6, 8)) && pts.contains(&(10, 8)));
    assert!(pts.contains(&(8, 6)) && pts.contains(&(8, 10)));
    assert!(!pts.contains(&(5, 8)) && !pts.contains(&(11, 8)));
    for &(x, y) in &pts {
        assert!(pts.contains(&(16 - x, y)));
        assert!(pts.contains(&(x, 16 - y)));
    }
    let mut fb = big();
    fb.draw_circle(8, 8, -1, 5, 5, 5);
    assert!(lit(&fb).is_empty());
    let mut fb = big();
    fb.draw_circle(0, 0, 0, 5, 5, 5);
    assert_eq!(lit(&fb), vec![(0, 0)]);
}

#[test]
fn glyph_bits_choose_foreground() {
    let mut font = vec![0u8; kernel::font::FONT_BYTES];
    font[65 * 16] = 0b1000_0001;
    let mut fb = big();
    kernel::font::draw_char(&mut fb, &font, 2, 0, 65, (9, 9, 9), (1, 1, 1));
    assert_eq!(px(&fb, 2, 0), vec![9, 9, 9]);
    assert_eq!(px(&fb, 3, 0), vec![1, 1, 1]);
    assert_eq!(px(&fb, 9, 0), vec![9, 9, 9]);
    assert_eq!(px(&fb, 2, 15), vec![1, 1, 1]);
    assert_eq!(px(&fb, 10, 0), vec![0, 0, 0]);
}

#[test]
fn command_lines_split_into_name_and_args() {
    let l = parse_command("  write  notes.txt hello world  ");
    assert_eq!(l.command, Command::Write);
    assert_eq!(l.name, "write");
    assert_eq!(l.args, "notes.txt hello world");
    let l = parse_command("pwd");
    assert_eq!((l.command, l.name.as_str(), l.args.as_str()), (Command::Pwd, "pwd", ""));
    let l = parse_command("   ");
    assert_eq!((l.command, l.name.as_str()), (Command::Unknown, ""));
    let l = parse_command("frobnicate now");
    assert_eq!((l.command, l.name.as_str(), l.args.as_str()), (Command::Unknown, "frobnicate", "now"));
    assert_eq!(parse_command("screenfill red").command, Command::Screenfill);
    assert_eq!(split_first_space("a.txt some text"), Some((String::from("a.txt"), String::from("some text"))));
    assert_eq!(split_first_space("nospace"), None);
}

#[test]
fn words_and_numbers() {
    assert_eq!(split_words("  rect 1\t2   3 4 red "), vec!["rect", "1", "2", "3", "4", "red"]);
    assert!(split_words("   ").is_empty());
    assert_eq!(parse_usize("42"), Some(42));
    assert_eq!(parse_usize("+7"), Some(7));
    assert_eq!(parse_usize("-7"), None);
    assert_eq!(parse_usize(""), None);
    assert_eq!(parse_usize("+"), None);
    assert_eq!(parse_usize("18446744073709551615"), Some(usize::MAX));
    assert_eq!(parse_usize("18446744073709551616"), None);
    assert_eq!(parse_usize("1x"), None);
    assert_eq!(parse_i32("-2147483648"), Some(i32::MIN));
    assert_eq!(parse_i32("2147483647"), Some(i32::MAX));
    assert_eq!(parse_i32("2147483648"), None);
    assert_eq!(parse_i32("-12"), Some(-12));
    assert_eq!(parse_i32("+12"), Some(12));
    assert_eq!(parse_i32("-"), None);
    for s in ["0", "17", "-5", "+3", "abc", "", "99999999999", "-2147483649", "007"] {
        assert_eq!(parse_i32(s), s.parse::<i32>().ok(), "{}", s);
    }
}
