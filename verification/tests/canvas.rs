//! Replaying draw commands on a canvas: begin, every command in order, end,
//! and a finish once every page is drawn.

use rsword_layout_core::{
    paint_document, DrawCmd, Engine, FontSpec, PageSetup, PaintList, PaintPage, Para, Rect, Run,
    SimpleMetrics, Twips, VectorCanvas,
};
use rsword_layout_core::Color;

#[derive(Debug, Clone, PartialEq)]
enum Event {
    Begin(Twips, Twips),
    Draw,
    End,
}

/// Records what it is asked to do; refuses the draw with the given number.
struct Recorder {
    events: Vec<Event>,
    fail_at: Option<usize>,
    draws: usize,
}

impl Recorder {
    fn new(fail_at: Option<usize>) -> Recorder {
        Recorder { events: Vec::new(), fail_at, draws: 0 }
    }
}

impl VectorCanvas for Recorder {
    type Error = usize;

    fn begin_page(&mut self, width: Twips, height: Twips) -> Result<(), usize> {
        self.events.push(Event::Begin(width, height));
        Ok(())
    }

    fn end_page(&mut self) -> Result<(), usize> {
        self.events.push(Event::End);
        Ok(())
    }

    fn draw(&mut self, _cmd: &DrawCmd) -> Result<(), usize> {
        let n = self.draws;
        self.draws += 1;
        if self.fail_at == Some(n) {
            return Err(n);
        }
        self.events.push(Event::Draw);
        Ok(())
    }
}

fn page_with(cmds: usize) -> PaintPage {
    let mut page = PaintPage::new(1000, 2000, Rect::new(10, 10, 980, 1980));
    for _ in 0..cmds {
        page.cmds.push(DrawCmd::Save);
    }
    page
}

#[test]
fn draw_all_of_nothing_succeeds_and_draws_nothing() {
    let mut canvas = Recorder::new(Some(0));
    assert_eq!(canvas.draw_all(&[]), Ok(()));
    assert!(canvas.events.is_empty());
    assert_eq!(canvas.draws, 0);
}

#[test]
fn default_finish_succeeds() {
    let mut canvas = Recorder::new(None);
    assert_eq!(canvas.finish(), Ok(()));
    assert!(canvas.events.is_empty());
}

#[test]
fn draw_all_stops_at_the_first_error() {
    let mut canvas = Recorder::new(Some(1));
    let cmds = vec![DrawCmd::Save, DrawCmd::Restore, DrawCmd::Save];
    assert_eq!(canvas.draw_all(&cmds), Err(1));
    assert_eq!(canvas.events, vec![Event::Draw]);
    assert_eq!(canvas.draws, 2);
}

#[test]
fn page_replay_begins_draws_and_ends() {
    let mut canvas = Recorder::new(None);
    assert_eq!(page_with(2).replay(&mut canvas), Ok(()));
    assert_eq!(
        canvas.events,
        vec![Event::Begin(1000, 2000), Event::Draw, Event::Draw, Event::End]
    );
}

#[test]
fn list_replay_stops_at_a_failing_page() {
    let list = PaintList { pages: vec![page_with(1), page_with(1), page_with(1)] };
    let mut canvas = Recorder::new(Some(1));
    assert_eq!(list.replay(&mut canvas), Err(1));
    assert_eq!(
        canvas.events,
        vec![Event::Begin(1000, 2000), Event::Draw, Event::End, Event::Begin(1000, 2000)]
    );
}

#[test]
fn a_laid_out_document_replays_page_by_page() {
    let metrics = SimpleMetrics;
    let engine = Engine::new(&metrics, PageSetup::a4());
    let para = Para {
        runs: vec![Run {
            text: "Hello".to_string(),
            font: FontSpec::new("Test", 24),
            color: Color::black(),
            placeholders: Vec::new(),
            rise: 0,
        }],
        ..Para::default()
    };
    let list = paint_document(&engine.layout(&[para]), None, &[]);
    let mut canvas = Recorder::new(None);
    assert_eq!(list.replay(&mut canvas), Ok(()));
    let begins = canvas.events.iter().filter(|e| matches!(e, Event::Begin(..))).count();
    let ends = canvas.events.iter().filter(|e| **e == Event::End).count();
    assert_eq!(begins, list.page_count());
    assert_eq!(ends, list.page_count());
    assert_eq!(canvas.events[0], Event::Begin(11906, 16838));
}
