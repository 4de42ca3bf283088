use glm_os::console::font::Font;
use glm_os::console::screen::{self, Console};
use glm_os::console::{palette, Format, Out, Rgb, GLM_CYAN};
use glm_os::cpu::keyboard::{self, Keyboard};
use glm_os::gui::actions::{self, Click};
use glm_os::gui::calls::{self, Desk};
use glm_os::gui::draw::Readings;
use glm_os::gui::paint::Painter;
use glm_os::gui::rect::{self, Rect};
use glm_os::gui::scene::{Kind, Reason};
use glm_os::gui::session::{self, After, Motion};
use glm_os::gui::terms;
use glm_os::mem::frames::{self, Region};
use glm_os::mem::vmm::{AddressSpace, Memory, PRESENT, USER, WRITABLE};
use glm_os::shell::edit::{self, Blink, Caret, Typed};
use glm_os::term::{self, Next};
use glm_os::user::uaccess::write_user_bytes;

fn font() -> Font {
    let mut glyphs = vec![[0u8; 8]; 95];
    for i in 1..95 {
        glyphs[i] = [0x01, 0, 0, 0, 0, 0, 0, i as u8];
    }
    Font { first: 32, glyphs }
}

fn rgb() -> Format {
    Format { rsh: 16, gsh: 8, bsh: 0, rsz: 8, gsz: 8, bsz: 8 }
}

fn readings(ms: u64) -> Readings {
    Readings {
        uptime_ms: ms,
        tasks: 3,
        switches: 7,
        frames_used: 10,
        frames_total: 100,
        heap: Some((1024, 4096)),
        packets: 0,
        resyncs: 0,
        irqs: 0,
        rx: 0,
        tx: 0,
        drops: 0,
    }
}

struct Seat {
    desk: Option<Desk>,
    con: Option<Console>,
    keys: Keyboard,
}

fn seat() -> Seat {
    let mut s = Seat {
        desk: None,
        con: screen::init(vec![0; 640 * 480], 2560, 640, 480, rgb(), font()),
        keys: Keyboard::new(),
    };
    assert!(session::run(&mut s.desk, &mut s.con, &mut s.keys, &font(), &readings(0), true));
    s
}

impl Seat {
    fn step(&mut self, dx: i32, dy: i32, left: bool) -> (Click, Option<Reason>) {
        let m = Motion { dx, dy, left };
        session::frame(self.desk.as_mut().unwrap(), &mut self.con, &mut self.keys, &font(), &m, &readings(10))
    }

    fn go(&mut self, x: i32, y: i32) {
        let s = &self.desk.as_ref().unwrap().sc.s;
        let (dx, dy) = (x - s.cur_x, y - s.cur_y);
        let _ = self.step(dx, dy, false);
    }

    fn click(&mut self, x: i32, y: i32) -> (Click, Option<Reason>) {
        self.go(x, y);
        let r = self.step(0, 0, true);
        let _ = self.step(0, 0, false);
        r
    }

    fn desk(&self) -> &Desk {
        self.desk.as_ref().unwrap()
    }
}

fn memory() -> (Memory, AddressSpace) {
    let mut m = Memory::new();
    frames::init(&mut m.frames, &vec![Region { base: 0x10_0000, length: 0x10_0000, usable: true }]);
    let s = AddressSpace::new_user(&mut m).unwrap();
    let p = frames::alloc_frame(&mut m.frames).unwrap();
    s.map(&mut m, 0x40_0000, p, PRESENT | WRITABLE | USER).unwrap();
    write_user_bytes(&mut m, &s, 0x40_0000, b"My window\x01").unwrap();
    (m, s)
}

#[test]
fn rectangles() {
    let a = Rect { x: 0, y: 0, w: 10, h: 10 };
    assert!(rect::point_in(9, 9, a));
    assert!(!rect::point_in(10, 9, a));
    assert!(rect::rects_intersect(a, Rect { x: 9, y: 9, w: 5, h: 5 }));
    assert!(!rect::rects_intersect(a, Rect { x: 10, y: 0, w: 5, h: 5 }));
    assert_eq!(
        rect::intersect_screen(Rect { x: -5, y: 3, w: 20, h: 500 }, 10, 100),
        Rect { x: 0, y: 3, w: 10, h: 97 }
    );
}

#[test]
fn painting_stays_in_the_clip() {
    let mut p = Painter { buf: vec![0; 100], w: 10, h: 10, clip: Rect { x: 2, y: 2, w: 3, h: 3 } };
    p.fill_rect(0, 0, 10, 10, 7);
    assert_eq!(p.buf.iter().filter(|c| **c == 7).count(), 9);
    assert_eq!((p.buf[22], p.buf[21], p.buf[44], p.buf[45]), (7, 0, 7, 0));
    p.px(2, 2, 9);
    p.px(0, 0, 9);
    assert_eq!((p.buf[22], p.buf[0]), (9, 0));
    p.blit(&vec![1, 2, 3, 4], 3, 3, 2, 2);
    assert_eq!((p.buf[33], p.buf[34], p.buf[43], p.buf[44]), (1, 2, 3, 4));
    p.draw_char(&font(), b'A', 2, 2, 5, Some(6), 1);
    assert_eq!((p.buf[22], p.buf[23]), (5, 6));
}

#[test]
fn the_console_writes() {
    let mut c = screen::init(vec![0; 640 * 480], 2560, 640, 480, rgb(), font());
    assert_eq!(screen::size(&c), (80, 48));
    screen::clear(&mut c);
    screen::print(&mut c, "AB\nC");
    {
        let k = c.as_ref().unwrap();
        assert_eq!((k.scale(), k.cell_w(), k.cell_h()), (1, 8, 10));
        assert_eq!((k.cx, k.cy), (1, 1));
        assert_eq!(k.grid.data[1].ch, b'B');
        let white = k.pack_rgb(&k.fg);
        assert_eq!(k.grab(0, 0), white);
        assert_eq!(k.grab(8, 0), white);
        assert_eq!(k.grab(1, 0), k.pack_rgb(&k.bg));
    }
    screen::print_all(&mut c, &vec![Out { text: "xy".to_string(), color: Some(GLM_CYAN) }]);
    assert_eq!(c.as_ref().unwrap().cx, 3);
    let before = c.as_ref().unwrap().fb.clone();
    screen::redraw_all_global(&mut c);
    assert!(c.as_ref().unwrap().fb == before);
    screen::clear(&mut c);
    assert_eq!(c.as_ref().unwrap().cy, 0);
    // a full screen scrolls
    for _ in 0..48 {
        screen::newline(&mut c);
    }
    screen::print(&mut c, "Z");
    let k = c.as_ref().unwrap();
    assert_eq!(k.grid.data[47 * 80].ch, b'Z');
    let mut none: Option<Console> = None;
    screen::print(&mut none, "nothing");
    assert_eq!(screen::size(&none), (0, 0));
}

#[test]
fn the_text_comes_back_after_the_desktop() {
    // 485 rows of pixels: the last line does not end with the screen
    let mut c = screen::init(vec![0; 640 * 485], 2560, 640, 485, rgb(), font());
    screen::clear(&mut c);
    for i in 0..60 {
        screen::print(&mut c, if i % 2 == 0 { "even\tline\n" } else { "odd\rline ~ \n" });
    }
    screen::print(&mut c, &"long ".repeat(40));
    let before = c.as_ref().unwrap().fb.clone();
    for p in c.as_mut().unwrap().fb.iter_mut() {
        *p = 0xABCDEF;
    }
    screen::redraw_all_global(&mut c);
    let after = &c.as_ref().unwrap().fb;
    for y in 0..480 {
        for x in 0..640 {
            if y % 10 < 8 {
                assert_eq!(after[y * 640 + x], before[y * 640 + x]);
            }
        }
    }
    // what is cleared shows as blanks
    screen::clear(&mut c);
    let clear = c.as_ref().unwrap().fb.clone();
    screen::redraw_all_global(&mut c);
    assert!(c.as_ref().unwrap().fb == clear);
}

#[test]
fn colours_are_packed() {
    assert_eq!(rgb().pack(&Rgb(0x12, 0x34, 0x56)), 0x123456);
    let f565 = Format { rsh: 11, gsh: 5, bsh: 0, rsz: 5, gsz: 6, bsz: 5 };
    assert_eq!(f565.pack(&Rgb(0xFF, 0x00, 0x08)), 0xF801);
    assert_eq!(palette(15), Rgb(240, 240, 240));
}

#[test]
fn the_desktop_starts() {
    let s = seat();
    let d = s.desk();
    assert_eq!((d.sc.w, d.sc.h), (640, 480));
    assert_eq!(d.sc.wins.len(), 2);
    assert_eq!(d.sc.wins[0].kind, Kind::Monitor);
    assert!(d.sc.wins[0].open && !d.sc.wins[1].open);
    assert_eq!((d.sc.wins[0].x, d.sc.wins[0].y), (130, 80));
    assert_eq!((d.sc.s.cur_x, d.sc.s.cur_y), (320, 240));
    assert_eq!(d.back[0], s.con.as_ref().unwrap().grab(0, 0));
    let mut n = Seat { desk: None, con: None, keys: Keyboard::new() };
    assert!(!session::run(&mut n.desk, &mut n.con, &mut n.keys, &font(), &readings(0), true));
}

#[test]
fn a_dragged_window_stays_on_the_screen() {
    let mut s = seat();
    s.go(150, 85);
    let _ = s.step(0, 0, true);
    assert!(s.desk().sc.s.dragging.is_some());
    let _ = s.step(5000, 5000, true);
    let w = &s.desk().sc.wins[0];
    assert!(w.x >= 0 && w.x + w.w <= 640);
    assert!(w.y >= 0 && w.y + w.h <= 480 - 28);
    let _ = s.step(-9000, -9000, true);
    let w = &s.desk().sc.wins[0];
    assert_eq!((w.x, w.y), (0, 0));
    let _ = s.step(0, 0, false);
    assert!(s.desk().sc.s.dragging.is_none());
}

#[test]
fn programs_have_windows() {
    let mut s = seat();
    let (m, sp) = memory();
    let wh = 200 | (100 << 16);
    let id = calls::sys_open(&mut s.desk, &m, sp.pml4, 9, 0x40_0000, 10, 0, wh);
    assert_eq!(id, 1);
    assert_eq!(calls::sys_open(&mut s.desk, &m, sp.pml4, 9, 0x90_0000, 10, 0, wh), -1);
    assert_eq!(calls::sys_geo(&s.desk, 9, 1), 200 << 16 | 100);
    assert_eq!(calls::sys_geo(&s.desk, 8, 1), -1);
    assert_eq!(s.desk().sc.active_idx(), Some(2));
    assert_eq!(s.desk().sc.wins[2].title, "My window?");
    assert_eq!(calls::sys_rect(&mut s.desk, &Some(rgb()), 9, 1, 0, wh, 0x00FF00), 0);
    assert!(s.desk().sc.wins[2].buf.iter().any(|c| *c == 0x00FF00));
    assert_eq!(calls::sys_rect(&mut s.desk, &Some(rgb()), 8, 1, 0, wh, 0x00FF00), -1);
    // a key goes to the focused window only
    keyboard::on_irq(&mut s.keys, 0x1E);
    let _ = s.step(0, 0, false);
    let e = calls::sys_event(&mut s.desk, 9, 1);
    assert_eq!(actions::unpack_ev(e).0, actions::EV_KEY);
    assert_eq!(actions::unpack_ev(e).1, b'a' as u64);
    assert_eq!(calls::sys_event(&mut s.desk, 9, 1), actions::EV_NONE);
    assert_eq!(calls::sys_event(&mut s.desk, 9, 5), u64::MAX);
    // its close box
    let (x, y) = (s.desk().sc.wins[2].x + s.desk().sc.wins[2].w - 20, s.desk().sc.wins[2].y + 6);
    let (c, end) = s.click(x, y);
    assert_eq!((c, end), (Click::Nothing, None));
    assert_eq!(actions::unpack_ev(calls::sys_event(&mut s.desk, 9, 1)).0, actions::EV_CLOSE);
    assert_eq!(calls::sys_close(&mut s.desk, 9, 1), 0);
    assert_eq!(calls::sys_close(&mut s.desk, 9, 7), -1);
}

#[test]
fn a_task_takes_its_windows_along() {
    let mut s = seat();
    let (m, sp) = memory();
    let _ = calls::sys_open(&mut s.desk, &m, sp.pml4, 9, 0x40_0000, 9, 0, 200 | (100 << 16));
    assert!(s.desk().sc.wins[2].open);
    terms::on_task_exit(&mut s.desk, 9);
    assert!(!s.desk().sc.wins[2].open);
    assert_eq!(calls::sys_geo(&s.desk, 9, 1), -1);
}

#[test]
fn the_last_window_ends_the_desktop() {
    let mut s = seat();
    let (x, y) = (s.desk().sc.wins[0].x + 380 - 20, s.desk().sc.wins[0].y + 6);
    let (c, end) = s.click(x, y);
    assert_eq!(c, Click::End(Reason::AllClosed));
    assert_eq!(end, Some(Reason::AllClosed));
    let mut s = seat();
    keyboard::on_irq(&mut s.keys, 0x01);
    let (_, end) = s.step(0, 0, false);
    assert_eq!(end, Some(Reason::Esc));
    assert_eq!(session::finish(&mut s.desk, &mut s.con, &font(), Reason::Esc), After::Shell);
    assert!(s.desk.is_none());
    let mut s = seat();
    assert_eq!(session::finish(&mut s.desk, &mut s.con, &font(), Reason::Reboot), After::Reboot);
    let mut s = seat();
    assert_eq!(session::finish(&mut s.desk, &mut s.con, &font(), Reason::Halt), After::Frozen);
    assert!(s.desk.is_some());
}

#[test]
fn the_menu_opens_windows() {
    let mut s = seat();
    let r = s.desk().sc.start_rect();
    let _ = s.click(r.x + 2, r.y + 2);
    assert!(s.desk().sc.s.menu_open);
    let i = s.desk().sc.menu_item_rect(1);
    let _ = s.click(i.x + 2, i.y + 2);
    assert!(!s.desk().sc.s.menu_open);
    assert!(s.desk().sc.any_open());
}

#[test]
fn an_opened_window_has_the_focus() {
    let mut s = seat();
    let r = s.desk().sc.start_rect();
    let _ = s.click(r.x + 2, r.y + 2);
    let i = s.desk().sc.menu_item_rect(2);
    s.go(i.x + 2, i.y + 2);
    let _ = s.step(0, 0, true);
    let w = &s.desk().sc.wins[1];
    assert!(w.open && !w.minimized);
    assert_eq!(s.desk().sc.active_idx(), Some(1));
}

#[test]
fn opening_draws_what_was_not_on_top() {
    let mut s = seat();
    // about is on top of the order, closed: nothing is marked
    assert_eq!(s.desk().sc.z.last(), Some(&1));
    let d = s.desk.as_mut().unwrap();
    d.sc.dirty.clear();
    actions::open_win(&mut d.sc, 1);
    assert!(d.sc.wins[1].open);
    assert!(d.sc.dirty.is_empty());
    // the monitor, minimized below it, comes back and is drawn
    d.sc.wins[0].minimized = true;
    actions::open_win(&mut d.sc, 0);
    assert!(!d.sc.wins[0].minimized);
    assert_eq!(d.sc.active_idx(), Some(0));
    let full = d.sc.wins[0].full_rect();
    assert!(d.sc.dirty.iter().any(|r| *r == full));
}

#[test]
fn windows_are_minimized_and_come_back() {
    let mut s = seat();
    let (x, y) = (s.desk().sc.wins[0].x + 380 - 35, s.desk().sc.wins[0].y + 6);
    let _ = s.click(x, y);
    assert!(s.desk().sc.wins[0].minimized);
    assert_eq!(s.desk().sc.active_idx(), None);
    let b = s.desk().sc.task_btn_rect(0);
    let _ = s.click(b.x + 3, b.y + 3);
    assert!(!s.desk().sc.wins[0].minimized);
    assert_eq!(s.desk().sc.active_idx(), Some(0));
}

#[test]
fn windows_are_resized() {
    let mut s = seat();
    let (m, sp) = memory();
    let _ = calls::sys_open(&mut s.desk, &m, sp.pml4, 9, 0x40_0000, 9, 10 | (10 << 16), 200 | (100 << 16));
    let g = s.desk().sc.wins[2].grip_rect();
    s.go(g.x + g.w - 1, g.y + g.h - 1);
    let _ = s.step(0, 0, true);
    assert_eq!(s.desk().sc.s.resizing, Some(2));
    let before = (s.desk().sc.wins[2].w, s.desk().sc.wins[2].h);
    let _ = s.step(30, 20, true);
    let w = &s.desk().sc.wins[2];
    assert!(w.w > before.0 && w.h > before.1);
    let _ = s.step(-3000, -3000, true);
    let w = &s.desk().sc.wins[2];
    assert_eq!((w.w, w.h), (140, 90));
    let _ = s.step(0, 0, false);
    assert_eq!(actions::unpack_ev(calls::sys_event(&mut s.desk, 9, 1)).0, actions::EV_RESIZE);
}

#[test]
fn terminals_type_and_print() {
    let mut s = seat();
    let (ses, next, out) = term::session_main(&mut s.desk, 4, 100);
    let mut ses = ses.unwrap();
    assert_eq!(next, Next::Again);
    assert!(!out.is_empty());
    for o in &out {
        terms::term_feed(&mut s.desk, ses.win, &o.text);
    }
    for sc in [0x26, 0x1F, 0x0E, 0x1C] {
        keyboard::on_irq(&mut s.keys, sc);
        let _ = s.step(0, 0, false);
    }
    assert_eq!(term::session_poll(&mut s.desk, &mut ses, 101).0, Next::Again);
    assert_eq!(ses.line, b"l".to_vec());
    assert_eq!(term::session_poll(&mut s.desk, &mut ses, 101).0, Next::Again);
    assert_eq!(ses.line, b"ls".to_vec());
    assert_eq!(term::session_poll(&mut s.desk, &mut ses, 101).0, Next::Again);
    assert_eq!(ses.line, b"l".to_vec());
    assert_eq!(term::session_poll(&mut s.desk, &mut ses, 101).0, Next::Execute);
    assert_eq!(term::session_executed(&s.desk, &mut ses).0, Next::Again);
    assert_eq!(ses.line.len(), 0);
    assert_eq!(term::session_poll(&mut s.desk, &mut ses, 102).0, Next::Sleep);
    assert_eq!(term::session_check(&s.desk, &ses), Next::Again);
    terms::term_close(&mut s.desk, ses.win);
    assert!(terms::term_closed(&s.desk, ses.win));
    assert_eq!(term::session_executed(&s.desk, &mut ses).0, Next::Exit(0));
    assert!(matches!(term::session_check(&s.desk, &ses), Next::Exit(_)));
    let mut none: Option<Desk> = None;
    assert_eq!(term::session_main(&mut none, 4, 100).1, Next::Exit(1));
}

#[test]
fn a_line_is_edited() {
    let mut line = Vec::new();
    assert_eq!(edit::type_key(&mut line, 8).0, Typed::Ignored);
    let (t, v) = edit::type_key(&mut line, b'a');
    assert_eq!((t, v[0].text.as_str()), (Typed::Added, "a"));
    assert_eq!(edit::type_key(&mut line, 7).0, Typed::Ignored);
    let (t, v) = edit::type_key(&mut line, 8);
    assert_eq!((t, v[0].text.as_str()), (Typed::Erased, "\x08 \x08"));
    assert!(line.is_empty());
    for _ in 0..128 {
        assert_eq!(edit::type_key(&mut line, b'x').0, Typed::Added);
    }
    assert_eq!(edit::type_key(&mut line, b'x').0, Typed::Ignored);
    assert_eq!(edit::type_key(&mut line, 10).0, Typed::Done);
    let mut c = Caret { on: false, last: 10 };
    assert_eq!(edit::blink(&mut c, 34), Blink::Stay);
    assert_eq!(edit::blink(&mut c, 35), Blink::Draw);
    assert_eq!(edit::blink(&mut c, 60), Blink::Erase);
}

#[test]
fn events_are_packed() {
    let e = actions::pack_ev(actions::EV_CLICK, 12, 34);
    assert_eq!(actions::unpack_ev(e), (actions::EV_CLICK, 12, 34));
}

#[test]
fn rectangles_are_cut_to_the_screen() {
    let none = Rect { x: 0, y: 0, w: 0, h: 0 };
    let max = i32::MAX;
    let cut = |x, y, w, h, sw, sh| rect::intersect_screen(Rect { x, y, w, h }, sw, sh);
    assert_eq!(cut(0, 0, max, max, max as usize, max as usize), Rect { x: 0, y: 0, w: max, h: max });
    assert_eq!(cut(i32::MIN, -7, max, 8, 640, 480), none);
    assert_eq!(cut(max - 5, 0, 5, 10, max as usize, 480), Rect { x: max - 5, y: 0, w: 5, h: 10 });
    assert_eq!(cut(10, 10, 0, 5, 640, 480), none);
    assert_eq!(cut(10, 10, 5, -5, 640, 480), none);
    assert_eq!(cut(640, 0, 5, 5, 640, 480), none);
    let r = cut(-5, 470, 20, 500, 640, 480);
    assert_eq!(r, Rect { x: 0, y: 470, w: 15, h: 10 });
    assert_eq!(rect::intersect_screen(r, 640, 480), r);
}
