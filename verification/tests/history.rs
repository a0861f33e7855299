use vici::{Buffer, Change, History, LinearHistory, NoHistory};

/// Drive a history the way `Document` does, so these tests exercise the real
/// call ordering.
struct Harness {
    buf: Buffer,
    hist: LinearHistory,
}

impl Harness {
    fn new(text: &str) -> Self {
        Self {
            buf: Buffer::from_text(text),
            hist: LinearHistory::new(),
        }
    }

    fn replace(&mut self, range: core::ops::Range<usize>, text: &str) {
        let change = self.buf.stage_replace(range, text);
        self.hist.record(&change, &self.buf);
        self.buf.apply(&change);
    }

    fn apply_all(&mut self, changes: &[Change]) {
        for change in changes {
            self.buf.apply(change);
        }
    }

    fn undo(&mut self) -> Option<usize> {
        let step = self.hist.undo();
        self.apply_all(&step.changes);
        step.cursor
    }

    fn redo(&mut self) -> Option<usize> {
        let step = self.hist.redo();
        self.apply_all(&step.changes);
        step.cursor
    }

    fn undo_row(&mut self) -> Option<usize> {
        let step = self.hist.undo_row(&self.buf);
        self.apply_all(&step.changes);
        step.cursor
    }

    fn text(&self) -> String {
        self.buf.to_string()
    }
}

#[test]
fn undo_and_redo_a_single_change() {
    let mut h = Harness::new("select 1");
    h.replace(7..8, "2");
    assert_eq!(h.text(), "select 2");
    h.undo();
    assert_eq!(h.text(), "select 1");
    h.redo();
    assert_eq!(h.text(), "select 2");
}

#[test]
fn a_group_undoes_as_one_step() {
    let mut h = Harness::new("");
    h.hist.begin_group(None);
    for (i, ch) in "select".chars().enumerate() {
        h.replace(i..i, &ch.to_string());
    }
    h.hist.end_group(None);
    assert_eq!(h.text(), "select");
    assert_eq!(h.hist.undo_depth(), 1);
    h.undo();
    assert_eq!(h.text(), "");
}

#[test]
fn groups_nest() {
    let mut h = Harness::new("");
    h.hist.begin_group(None);
    h.hist.begin_group(None);
    h.replace(0..0, "a");
    h.hist.end_group(None);
    h.replace(1..1, "b");
    h.hist.end_group(None);
    assert_eq!(h.hist.undo_depth(), 1);
    h.undo();
    assert_eq!(h.text(), "");
}

#[test]
fn a_new_change_truncates_the_redo_tail() {
    let mut h = Harness::new("a");
    h.replace(1..1, "b");
    h.undo();
    assert_eq!(h.hist.redo_depth(), 1);
    h.replace(1..1, "c");
    assert_eq!(h.hist.redo_depth(), 0);
    h.redo();
    assert_eq!(h.text(), "ac");
}

#[test]
fn undo_reverses_a_group_in_reverse_order() {
    let mut h = Harness::new("abc");
    h.hist.begin_group(None);
    h.replace(0..1, "X"); // Xbc
    h.replace(2..3, "Y"); // XbY
    h.hist.end_group(None);
    assert_eq!(h.text(), "XbY");
    h.undo();
    assert_eq!(h.text(), "abc");
}

#[test]
fn u_restores_a_whole_run_of_changes_on_one_row() {
    let mut h = Harness::new("select id\nfrom users");
    h.replace(7..9, "name"); // select name
    h.replace(0..6, "SELECT"); // SELECT name
    assert_eq!(h.buf.row_text(0), "SELECT name");
    assert_eq!(h.hist.pending_row(), Some(0));

    h.undo_row();
    assert_eq!(h.buf.row_text(0), "select id");
    // Row 1 was never touched.
    assert_eq!(h.buf.row_text(1), "from users");
}

#[test]
fn u_toggles() {
    let mut h = Harness::new("select id");
    h.replace(7..9, "name");
    h.undo_row();
    assert_eq!(h.text(), "select id");
    h.undo_row();
    assert_eq!(h.text(), "select name");
    h.undo_row();
    assert_eq!(h.text(), "select id");
}

#[test]
fn u_is_itself_undoable_with_u_lowercase() {
    let mut h = Harness::new("select id");
    h.replace(7..9, "name");
    h.undo_row();
    assert_eq!(h.text(), "select id");
    h.undo();
    assert_eq!(h.text(), "select name");
}

#[test]
fn moving_to_another_row_resnapshots() {
    let mut h = Harness::new("aaa\nbbb");
    h.replace(0..1, "X"); // Xaa
    h.replace(4..5, "Y"); // Ybb
    assert_eq!(h.hist.pending_row(), Some(1));
    h.undo_row();
    assert_eq!(h.text(), "Xaa\nbbb");
}

#[test]
fn a_multi_row_change_abandons_the_row_snapshot() {
    let mut h = Harness::new("aaa\nbbb");
    h.replace(0..1, "X");
    assert_eq!(h.hist.pending_row(), Some(0));
    h.replace(3..4, ""); // joins the rows
    assert_eq!(h.hist.pending_row(), None);
    h.undo_row();
    assert_eq!(h.text(), "Xaabbb");
}

#[test]
fn u_does_nothing_before_any_change() {
    let mut h = Harness::new("select 1");
    h.undo_row();
    assert_eq!(h.text(), "select 1");
    assert_eq!(h.hist.undo_depth(), 0);
}

#[test]
fn a_plain_undo_abandons_the_row_snapshot() {
    let mut h = Harness::new("select id");
    h.replace(7..9, "name");
    h.undo();
    assert_eq!(h.hist.pending_row(), None);
    h.undo_row();
    assert_eq!(h.text(), "select id");
}

#[test]
fn limit_discards_the_oldest_groups() {
    let mut h = Harness::new("");
    h.hist = LinearHistory::with_limit(2);
    h.replace(0..0, "a");
    h.replace(1..1, "b");
    h.replace(2..2, "c");
    assert_eq!(h.hist.undo_depth(), 2);
    h.undo();
    h.undo();
    assert_eq!(h.text(), "a");
    h.undo();
    assert_eq!(h.text(), "a");
}

#[test]
fn no_history_records_nothing() {
    let mut hist = NoHistory;
    let mut buf = Buffer::from_text("select 1");
    let change = buf.stage_replace(7..8, "2");
    hist.record(&change, &buf);
    buf.apply(&change);
    assert!(hist.undo().is_empty());
    assert!(hist.redo().is_empty());
    assert!(hist.undo_row(&buf).is_empty());
    assert_eq!(buf.to_string(), "select 2");
}

#[test]
fn noop_changes_are_not_recorded() {
    let mut h = Harness::new("select 1");
    h.replace(7..8, "1");
    assert_eq!(h.hist.undo_depth(), 0);
}
