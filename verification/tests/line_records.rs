//! One record per line, however many commands the line was painted with,
//! and a record for an empty line too.

use rsword_layout_core::{
    DrawCmd, Fragment, LineTerminator,
    Color, Engine, FontSpec, LayoutRecord, PageSetup, Para, PlaceholderKind, Run, SimpleMetrics,
    paint_document,
};

fn run(text: &str, family: &str) -> Run {
    Run {
        text: text.to_string(),
        font: FontSpec::new(family, 24),
        color: Color::black(),
        placeholders: Vec::new(),
        rise: 0,
    }
}

fn record(paras: Vec<Para>) -> LayoutRecord {
    let metrics = SimpleMetrics;
    let engine = Engine::new(&metrics, PageSetup::a4());
    LayoutRecord::from_paint(&paint_document(&engine.layout(&paras), None, &[]))
}

fn lines(record: &LayoutRecord) -> Vec<usize> {
    record.pages.iter().map(|p| p.lines.len()).collect()
}

#[test]
fn several_runs_on_one_line_make_one_record() {
    let para = Para {
        runs: vec![run("aaa", "A"), run("bbb", "B"), run("ccc", "C")],
        ..Para::default()
    };
    let r = record(vec![para]);
    assert_eq!(lines(&r), vec![1], "一行被 run 切碎成了多条记录");
}

#[test]
fn merged_record_keeps_the_whole_source_range() {
    let para = Para {
        runs: vec![run("ab", "A"), run("cd", "B")],
        ..Para::default()
    };
    let r = record(vec![para]);
    let line = &r.pages[0].lines[0];
    let source = line.source.expect("合并后应当仍有源区间");
    assert_eq!(
        (source.start, source.end),
        (0, 5),
        "源区间没有取并集，或没有覆盖到段落标记那一个字符"
    );
}

#[test]
fn merged_record_keeps_the_real_terminator() {

    let para = Para {
        runs: vec![run("ab", "A"), run("cd", "B")],
        ..Para::default()
    };
    let r = record(vec![para]);
    assert_eq!(
        r.pages[0].lines[0].terminator,
        LineTerminator::ParagraphMark,
        "合并把行末的终止符丢了"
    );
}

#[test]
fn empty_paragraph_still_gets_a_line_record() {
    let r = record(vec![
        Para { runs: vec![run("x", "A")], ..Para::default() },
        Para { runs: vec![run("", "A")], ..Para::default() },
        Para { runs: vec![run("y", "A")], ..Para::default() },
    ]);
    assert_eq!(lines(&r), vec![3], "空段落没有行记录");
}

#[test]
fn a_lone_page_break_gets_its_own_line_record() {
    let para = Para {
        runs: vec![Run {
            text: "\u{FFFC}后".to_string(),
            font: FontSpec::new("A", 24),
            color: Color::black(),
            placeholders: vec![PlaceholderKind::PageBreak],
        rise: 0,
        }],
        ..Para::default()
    };
    let r = record(vec![para]);
    assert_eq!(lines(&r), vec![1, 1], "独占的分页符没有自己的行记录");
    assert_eq!(r.pages[0].lines[0].glyph_count(), 0, "分页行不该有字形");
}

#[test]
fn line_records_survive_a_wrapped_paragraph() {
    let long = "word ".repeat(60);
    let r = record(vec![Para {
        runs: vec![run(long.trim_end(), "A")],
        ..Para::default()
    }]);
    let total: usize = lines(&r).iter().sum();
    assert!(total > 1, "这段应当换过行");
    let ranges: Vec<_> = r
        .pages
        .iter()
        .flat_map(|p| p.lines.iter())
        .filter_map(|l| l.source.map(|s| (s.start, s.end)))
        .collect();
    for pair in ranges.windows(2) {
        assert_eq!(pair[0].1, pair[1].0, "行与行之间的源区间不连续：{ranges:?}");
    }
}

#[test]
fn a_paragraph_mark_draws_its_own_space_glyph() {


    let para = Para { runs: vec![run("ab", "A")], ..Para::default() };
    let metrics = SimpleMetrics;
    let engine = Engine::new(&metrics, PageSetup::a4());
    let pages = engine.layout(&[para]);

    let texts: Vec<String> = pages[0]
        .fragments
        .iter()
        .filter_map(|f| match f {
            Fragment::Text(t) => Some(t.text.clone()),
            _ => None,
        })
        .collect();
    assert_eq!(
        texts.concat(),
        "ab ",
        "段落标记没有画出那个空格：{texts:?}"
    );

    let list = paint_document(&pages, None, &[]);
    for page in &list.pages {
        for cmd in &page.cmds {
            if let DrawCmd::DrawGlyphs { text, terminator, .. } = cmd {
                assert_eq!(
                    text.chars().rev().take_while(|c| *c == ' ').count(),
                    terminator.expected_glyphs(),
                    "自报 {} 个终止符字形，实际画了 {:?}",
                    terminator.expected_glyphs(),
                    text
                );
            }
        }
    }
}

#[test]
fn a_section_break_draws_nothing_extra() {


    let para = Para {
        runs: vec![run("ab", "A")],
        terminator: LineTerminator::SectionBreak,
        ..Para::default()
    };
    let metrics = SimpleMetrics;
    let pages = Engine::new(&metrics, PageSetup::a4()).layout(&[para]);
    let texts: Vec<String> = pages[0]
        .fragments
        .iter()
        .filter_map(|f| match f {
            Fragment::Text(t) => Some(t.text.clone()),
            _ => None,
        })
        .collect();
    assert_eq!(texts.concat(), "ab", "分节符不该画字形：{texts:?}");
}
