use ui_scene::{
    record_outcome, AsAny, ConfigurationError, PrerenderDiagnostic, PrerenderFailure, Rectangle,
    UiBox, UiCollection, UiElement, UiInteractive,
};

struct Widget {
    id: u32,
    z: i32,
}

impl UiElement<()> for Widget {
    fn render(&self, _render_pass: &mut wgpu::RenderPass) {}

    fn z_layer(&self) -> i32 {
        self.z
    }
}

impl UiBox for Widget {
    fn width(&self) -> Result<u16, ConfigurationError> {
        Ok(20)
    }

    fn height(&self) -> Result<u16, ConfigurationError> {
        Ok(20)
    }

    fn position(&self) -> (u16, u16) {
        (10, 10)
    }
}

impl UiInteractive<()> for Widget {}

/// An element that keeps every default of the contract.
struct Label {
    id: u32,
}

impl UiElement<()> for Label {
    fn render(&self, _render_pass: &mut wgpu::RenderPass) {}
}

fn widget(id: u32, z: i32) -> Widget {
    Widget { id, z }
}

fn id_of(element: &Box<dyn UiElement<()>>) -> u32 {
    let any = (**element).as_any().target;
    if let Some(widget) = any.downcast_ref::<Widget>() {
        widget.id
    } else {
        any.downcast_ref::<Label>().unwrap().id
    }
}

fn ids(collection: &UiCollection<()>) -> Vec<u32> {
    collection.iter().into_iter().map(id_of).collect()
}

fn sample() -> UiCollection<()> {
    let mut c: UiCollection<()> = UiCollection::new();
    c.append(widget(1, 5));
    c.append(widget(2, 0));
    c.append(widget(3, 5));
    c.append(widget(4, -1));
    c.append(widget(5, 0));
    c.append(widget(6, 5));
    c.append(widget(7, 0));
    c
}

#[test]
fn new_collection_is_empty() {
    let c: UiCollection<()> = UiCollection::new();
    assert!(c.iter().is_empty());
}

#[test]
fn iter_sorts_by_layer_and_keeps_ties_in_insertion_order() {
    assert_eq!(ids(&sample()), vec![4, 2, 5, 7, 1, 3, 6]);
}

#[test]
fn iter_does_not_depend_on_insertion_order_of_layers() {
    let mut c: UiCollection<()> = UiCollection::new();
    c.append(widget(1, 3));
    c.append(widget(2, 2));
    c.append(widget(3, 1));
    assert_eq!(ids(&c), vec![3, 2, 1]);
    let mut d: UiCollection<()> = UiCollection::new();
    d.append(widget(3, 1));
    d.append(widget(1, 3));
    d.append(widget(2, 2));
    assert_eq!(ids(&d), vec![3, 2, 1]);
}

#[test]
fn iter_can_be_taken_again() {
    let c = sample();
    assert_eq!(ids(&c), ids(&c));
}

#[test]
fn iter_sees_what_was_appended_since() {
    let mut c = sample();
    c.append(widget(8, -7));
    assert_eq!(ids(&c), vec![8, 4, 2, 5, 7, 1, 3, 6]);
}

#[test]
fn default_layer_is_zero() {
    let mut c: UiCollection<()> = UiCollection::new();
    c.append(widget(1, 1));
    c.append(Label { id: 2 });
    c.append(widget(3, -1));
    c.append(Label { id: 4 });
    assert_eq!(Label { id: 9 }.z_layer(), 0);
    assert_eq!(ids(&c), vec![3, 2, 4, 1]);
}

#[test]
fn batch_append_is_repeated_append() {
    let mut c: UiCollection<()> = UiCollection::new();
    c.append(widget(1, 5));
    let batch: Vec<Box<dyn UiElement<()>>> = vec![
        Box::new(widget(2, 0)),
        Box::new(widget(3, 5)),
        Box::new(widget(4, -1)),
    ];
    c.batch_append(batch);
    c.batch_append(Vec::new());
    let mut d: UiCollection<()> = UiCollection::new();
    d.append(widget(1, 5));
    d.append(widget(2, 0));
    d.append(widget(3, 5));
    d.append(widget(4, -1));
    assert_eq!(ids(&c), vec![4, 2, 1, 3]);
    assert_eq!(ids(&c), ids(&d));
}

#[test]
fn retain_removes_what_the_predicate_refuses() {
    let mut c = sample();
    c.retain(|e| e.z_layer() != 0);
    assert_eq!(ids(&c), vec![4, 1, 3, 6]);
    c.retain(|e| id_of(e) != 3);
    assert_eq!(ids(&c), vec![4, 1, 6]);
    c.retain(|_| false);
    assert!(c.iter().is_empty());
}

#[test]
fn retain_keeps_the_order_of_the_rest() {
    let mut c = sample();
    c.retain(|e| id_of(e) % 2 == 1);
    // all remaining on their layers, ties still by insertion
    assert_eq!(ids(&c), vec![5, 7, 1, 3]);
    c.append(widget(9, 5));
    assert_eq!(ids(&c), vec![5, 7, 1, 3, 9]);
}

#[test]
fn retain_twice_removes_nothing_more() {
    let mut c = sample();
    c.retain(|e| e.z_layer() >= 0);
    let once = ids(&c);
    assert_eq!(once, vec![2, 5, 7, 1, 3, 6]);
    c.retain(|e| e.z_layer() >= 0);
    assert_eq!(ids(&c), once);
}

#[test]
fn retain_all_changes_nothing() {
    let mut c = sample();
    let before = ids(&c);
    c.retain(|_| true);
    assert_eq!(ids(&c), before);
    assert_eq!(before.len(), 7);
}

#[test]
fn retain_asks_once_per_element() {
    let mut c = sample();
    let mut asked: Vec<u32> = Vec::new();
    c.retain(|e| {
        asked.push(id_of(e));
        true
    });
    asked.sort();
    assert_eq!(asked, vec![1, 2, 3, 4, 5, 6, 7]);
}

#[test]
fn retain_marked_follows_the_marks() {
    let mut c = sample();
    c.retain_marked(&vec![true, false, true, false, true, false, true]);
    assert_eq!(ids(&c), vec![5, 7, 1, 3]);
}

#[test]
fn retain_marked_keeps_what_has_no_mark() {
    let mut c = sample();
    c.retain_marked(&vec![false, false]);
    assert_eq!(ids(&c), vec![4, 5, 7, 3, 6]);
    c.retain_marked(&vec![]);
    assert_eq!(ids(&c), vec![4, 5, 7, 3, 6]);
    c.retain_marked(&vec![true, true, true, true, true, false, false, false]);
    assert_eq!(ids(&c), vec![4, 5, 7, 3, 6]);
}

#[test]
fn iter_mut_reads_in_the_order_of_iter() {
    let mut c = sample();
    let expected = ids(&c);
    let seen: Vec<u32> = c.iter_mut().into_iter().map(|e| id_of(e)).collect();
    assert_eq!(seen, expected);
}

#[test]
fn iter_mut_writes_reach_the_collection() {
    let mut c = sample();
    for element in c.iter_mut() {
        let widget = (**element).as_any_mut().target.downcast_mut::<Widget>().unwrap();
        widget.z = -widget.z;
    }
    // layers are now -5, 0, -5, 1, 0, -5, 0
    assert_eq!(ids(&c), vec![1, 3, 6, 2, 5, 7, 4]);
}

#[test]
fn iter_mut_can_replace_an_element_in_place() {
    let mut c = sample();
    {
        let mut refs = c.iter_mut();
        // the first in z-order is the widget 4, inserted fourth
        *refs[0] = Box::new(widget(40, 0));
    }
    // widget 40 stands where 4 stood: after 2, before 5 and 7
    assert_eq!(ids(&c), vec![2, 40, 5, 7, 1, 3, 6]);
}

#[test]
fn downcast_recovers_the_concrete_type() {
    let mut c: UiCollection<()> = UiCollection::new();
    c.append(widget(1, 0));
    c.append(Label { id: 2 });
    let refs = c.iter();
    assert!((**refs[0]).as_any().target.downcast_ref::<Widget>().is_some());
    assert!((**refs[0]).as_any().target.downcast_ref::<Label>().is_none());
    assert!((**refs[1]).as_any().target.downcast_ref::<Label>().is_some());
    assert!((**refs[1]).as_any().target.downcast_ref::<Widget>().is_none());
}

#[test]
fn downcast_of_a_plain_value() {
    let mut w = widget(3, 4);
    assert_eq!(w.as_any().target.downcast_ref::<Widget>().unwrap().id, 3);
    w.as_any_mut().target.downcast_mut::<Widget>().unwrap().z = 9;
    assert_eq!(w.z, 9);
    assert!(w.as_any().target.downcast_ref::<u32>().is_none());
}

#[test]
fn mouse_over_uses_the_bounds_of_the_element() {
    let w = widget(1, 0);
    assert_eq!(w.is_mouse_over((10, 10)), Ok(true));
    assert_eq!(w.is_mouse_over((29, 29)), Ok(true));
    assert_eq!(w.is_mouse_over((30, 30)), Ok(false));
    assert_eq!(w.is_mouse_over((9, 10)), Ok(false));
    assert_eq!(w.is_mouse_over((-5, -5)), Ok(false));
    let same = Rectangle { x: 10, y: 10, width: 20, height: 20 };
    for point in [(10, 10), (29, 29), (30, 30), (9, 10), (-5, -5), (15, 40)] {
        assert_eq!(w.is_mouse_over(point), Ok(same.contains(point)));
    }
}

/// An element whose corners are out of order along the vertical axis.
struct Folded;

impl UiElement<()> for Folded {
    fn render(&self, _render_pass: &mut wgpu::RenderPass) {}
}

impl UiBox for Folded {
    fn width(&self) -> Result<u16, ConfigurationError> {
        [5u16, 10, 8, 6].width()
    }

    fn height(&self) -> Result<u16, ConfigurationError> {
        [5u16, 10, 8, 6].height()
    }

    fn position(&self) -> (u16, u16) {
        (5, 10)
    }
}

impl UiInteractive<()> for Folded {}

#[test]
fn mouse_over_fails_where_the_bounds_cannot_be_had() {
    assert_eq!(Folded.width(), Ok(3));
    assert_eq!(Folded.is_mouse_over((6, 8)), Err(ConfigurationError::MalformedRectangle));
    assert_eq!(Folded.is_mouse_over((-1, -1)), Err(ConfigurationError::MalformedRectangle));
}

#[test]
fn prerender_failures_are_values() {
    let failure: Result<(), PrerenderFailure> = Err(PrerenderFailure::WriteRejected);
    assert_eq!(failure, Err(PrerenderFailure::WriteRejected));
    assert_ne!(PrerenderFailure::WriteRejected, PrerenderFailure::BufferMismatch);
}

#[test]
fn record_outcome_notes_failures_only() {
    let mut diagnostics: Vec<PrerenderDiagnostic> = Vec::new();
    record_outcome(&mut diagnostics, 0, Ok(()));
    assert!(diagnostics.is_empty());
    record_outcome(&mut diagnostics, 1, Err(PrerenderFailure::WriteRejected));
    record_outcome(&mut diagnostics, 2, Ok(()));
    record_outcome(&mut diagnostics, 3, Err(PrerenderFailure::BufferMismatch));
    assert_eq!(
        diagnostics,
        vec![
            PrerenderDiagnostic { position: 1, failure: PrerenderFailure::WriteRejected },
            PrerenderDiagnostic { position: 3, failure: PrerenderFailure::BufferMismatch },
        ]
    );
}

#[test]
fn refresh_each_reports_failures_and_goes_on() {
    let mut c = sample();
    let mut visited: Vec<u32> = Vec::new();
    let diagnostics = c.refresh_each(|element| {
        let id = id_of(element);
        visited.push(id);
        if id % 3 == 0 {
            Err(PrerenderFailure::WriteRejected)
        } else if id == 5 {
            Err(PrerenderFailure::BufferMismatch)
        } else {
            Ok(())
        }
    });
    assert_eq!(visited, vec![1, 2, 3, 4, 5, 6, 7]);
    assert_eq!(
        diagnostics,
        vec![
            PrerenderDiagnostic { position: 2, failure: PrerenderFailure::WriteRejected },
            PrerenderDiagnostic { position: 4, failure: PrerenderFailure::BufferMismatch },
            PrerenderDiagnostic { position: 5, failure: PrerenderFailure::WriteRejected },
        ]
    );
    assert_eq!(ids(&c), vec![4, 2, 5, 7, 1, 3, 6]);
}

#[test]
fn refresh_each_without_failures_reports_nothing() {
    let mut c = sample();
    assert!(c.refresh_each(|_| Ok(())).is_empty());
    let mut empty: UiCollection<()> = UiCollection::new();
    assert!(empty.refresh_each(|_| Err(PrerenderFailure::WriteRejected)).is_empty());
}

#[test]
fn refresh_each_lets_the_step_change_the_elements() {
    let mut c = sample();
    let diagnostics = c.refresh_each(|element| {
        let widget = (**element).as_any_mut().target.downcast_mut::<Widget>().unwrap();
        widget.z += widget.id as i32;
        Ok(())
    });
    assert!(diagnostics.is_empty());
    // layers are now 6, 2, 8, 3, 5, 11, 7
    assert_eq!(ids(&c), vec![2, 4, 5, 1, 7, 3, 6]);
}

#[test]
fn view_gives_back_the_value_it_was_made_of() {
    let w = widget(3, 4);
    let found = w.as_any().downcast_ref::<Widget>().unwrap();
    assert_eq!(found.id, 3);
    assert_eq!(found.z, 4);
    assert!(w.as_any().downcast_ref::<Label>().is_none());
    assert!(w.as_any().downcast_ref::<u32>().is_none());
}

#[test]
fn exclusive_view_writes_to_the_value_it_was_made_of() {
    let mut w = widget(3, 4);
    {
        let found = w.as_any_mut().downcast_mut::<Widget>().unwrap();
        assert_eq!(found.z, 4);
        found.z = 11;
    }
    assert_eq!(w.z, 11);
    assert!(w.as_any_mut().downcast_mut::<Label>().is_none());
    assert_eq!(w.z, 11);
}

#[test]
fn view_of_an_element_in_the_collection() {
    let mut c: UiCollection<()> = UiCollection::new();
    c.append(widget(1, 0));
    c.append(Label { id: 2 });
    {
        let refs = c.iter();
        assert_eq!((**refs[0]).as_any().downcast_ref::<Widget>().unwrap().id, 1);
        assert!((**refs[0]).as_any().downcast_ref::<Label>().is_none());
        assert_eq!((**refs[1]).as_any().downcast_ref::<Label>().unwrap().id, 2);
    }
    for element in c.iter_mut() {
        if let Some(found) = (**element).as_any_mut().downcast_mut::<Widget>() {
            found.z = 7;
        }
    }
    assert_eq!(ids(&c), vec![2, 1]);
}
