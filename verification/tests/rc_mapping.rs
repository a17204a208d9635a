//! Mappings from a configuration text.
use gpui_vim::config::parse;
use gpui_vim::buffer::{VimBuffer, VimBufferMut};
use gpui_vim::doc::{Cells, Chars, Doc, Offset};
use gpui_vim::host::{Calls, ScrollAnchor, VimHost};
use gpui_vim::key::Key;
use gpui_vim::state::{Ctx, VimState};

struct B(String);
impl VimBuffer for B {
    fn doc(&self) -> Doc {
        unreachable!()
    }
    fn doc_wf(&self) {}
    fn piece(_: Doc, _: Offset, _: Offset) -> Chars {
        unreachable!()
    }
    fn piece_exact(_: Doc, _: Offset, _: Offset) {}
    fn len(&self) -> usize { self.0.len() }
    fn line_count(&self) -> usize { self.0.lines().count() }
    fn char_at(&self, o: usize) -> Option<char> { self.0[o..].chars().next() }
    fn prev_char_offset(&self, o: usize) -> Option<usize> { Some(o.saturating_sub(1)).filter(|_| o > 0) }
    fn line_range(&self, l: usize) -> std::ops::Range<usize> {
        let start: usize = self.0.lines().take(l).map(|s| s.len() + 1).sum();
        let len = self.0.lines().nth(l).map(|s| s.len()).unwrap_or(0);
        start..start + len + 1
    }
    fn offset_to_line(&self, o: usize) -> usize { self.0[..o].matches('\n').count() }
    fn slice(&self, r: std::ops::Range<usize>) -> String { self.0[r].to_string() }
}
impl VimBufferMut for B {
    fn blanks_join_their_line(_: Doc, _: Offset, _: Chars) {}
    fn edition(&self) -> u64 {
        0
    }
    fn next_edition(n: u64) -> u64 {
        n
    }
    fn editable(&self) -> bool {
        true
    }
    fn doc_of(_: Cells) -> Doc {
        unreachable!()
    }
    fn edited(_: Doc, _: Offset, _: Offset, _: Chars) -> Doc {
        unreachable!()
    }
    fn takes(_: Chars) -> bool {
        true
    }
    fn edited_exact(_: Doc, _: Offset, _: Offset, _: Chars) {}
    fn insert_text(&mut self, o: usize, t: &str) { self.0.insert_str(o, t) }
    fn delete_range(&mut self, r: std::ops::Range<usize>) { let _ = self.0.drain(r); }
}

#[derive(Default)]
struct H {
    actions: std::rc::Rc<std::cell::RefCell<Vec<String>>>,
}
impl VimHost for H {
    fn told(&self) -> Calls {
        unreachable!()
    }
    fn serves(&self, _: &Self, _: Calls) -> bool {
        true
    }
    fn serves_nothing(&self) {}
    fn seen_lines(&self) -> (usize, usize) {
        self.viewport()
    }
    fn clip(&self) -> Option<Chars> {
        unreachable!()
    }
    fn viewport(&self) -> (usize, usize) { (0, 30) }
    fn scroll_to_line(&mut self, _: usize) {}
    fn clipboard_write(&mut self, _: &str) {}
    fn clipboard_read(&self) -> Option<String> { None }
    fn set_search_highlights(&mut self, _: &[std::ops::Range<usize>], _: Option<std::ops::Range<usize>>) {}
    fn begin_undo_group<T: VimBuffer>(&mut self, _: &T, _: u64, _: usize) {}
    fn undo<T: VimBufferMut>(&mut self, _: &mut T) -> Option<usize> { None }
    fn redo<T: VimBufferMut>(&mut self, _: &mut T) -> Option<usize> { None }
    fn dispatch_host_action_hinted(&mut self, id: &str, _strict: bool) {
        self.actions.borrow_mut().push(id.to_string());
    }
    fn scroll_to_line_anchored(&mut self, line: usize, _: ScrollAnchor) {
        self.scroll_to_line(line);
    }
    fn changed(&mut self) {}
    fn bell(&mut self) {}
    fn save<B: VimBuffer>(&mut self, _: &B) {}
    fn request_close_hinted(&mut self, _: bool) {
        self.request_close();
    }
    fn status_message(&mut self, _: &str) {}
}

#[test]
fn leader_mapping_parses_and_fires() {
    let cfg = parse("noremap <Leader>d :action Foo<CR>");
    println!("mappings={}", cfg.mappings.len());
    for m in &cfg.mappings {
        println!(
            "class={:?} lhs={:?} rhs={:?} noremap={}",
            m.class, m.lhs, m.rhs, m.noremap
        );
    }
    assert!(!cfg.mappings.is_empty(), "the mapping is read");

    let mut vim = VimState::new();
    vim.apply_config(&cfg);
    let mut buf = B("hello\nworld\n".to_string());
    let mut host = H::default();
    for k in ["\\", "d"] {
        let r = {
            let mut ctx = Ctx { buf: &mut buf, host: &mut host };
            vim.handle_key(&mut ctx, Key::char(k.chars().next().unwrap()))
        };
        println!("key {k} -> {r:?} mode={:?} cmdline={:?}", vim.mode(), vim.cmdline.buffer);
    }
    assert_eq!(
        host.actions.borrow().as_slice(),
        ["Foo"],
        "映射 RHS 的 :action 应派发到宿主"
    );
}
