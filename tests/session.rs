use propstamp::session::{Event, Failure, Op, Session, WorkError};
use propstamp::work::{Field, RawArgs, WorkTodo};

fn bare(file: &str) -> RawArgs {
    RawArgs {
        file: file.to_string(),
        tags: None,
        artists: None,
        writers: None,
        producers: None,
        genres: None,
        subtitle: None,
        title: None,
        series_name: None,
        year: None,
        episode: None,
        season: None,
    }
}

fn list(tokens: &[&str]) -> Option<Vec<String>> {
    Some(tokens.iter().map(|t| t.to_string()).collect())
}

/// Runs a session against a store that fails at the operation for which
/// `fails` says so, and returns the operations issued and the outcome.
fn drive(work: &WorkTodo, fails: impl Fn(Op) -> bool) -> (Vec<Op>, Result<(), WorkError>) {
    let mut session = Session::start(work);
    let mut issued = Vec::new();
    while let Some(op) = session.next_op() {
        issued.push(op);
        if fails(op) {
            session.advance(Event::Failed("host said no".to_string()));
        } else {
            session.advance(Event::Done);
        }
    }
    (issued, session.finish().unwrap())
}

#[test]
fn descriptor_holds_normalized_values() {
    let mut args = bare("movie.mkv");
    args.tags = list(&["Action", "DRAMA"]);
    args.genres = list(&[" ", "a::b", ""]);
    args.title = Some("The Pilot".to_string());
    args.year = Some("1999".to_string());
    args.season = Some("x1".to_string());
    let work = WorkTodo::new(&args);
    assert_eq!(work.path(), "movie.mkv");
    assert_eq!(work.text(Field::Tags), Some("action:drama".to_string()));
    assert_eq!(work.text(Field::Genres), Some("a:b".to_string()));
    assert_eq!(work.text(Field::Title), Some("The Pilot".to_string()));
    assert_eq!(work.number(Field::Year), Some(1999));
    assert_eq!(work.number(Field::Season), None);
    assert!(!work.has(Field::Season));
    assert!(!work.has(Field::Artists));
    assert!(work.has(Field::Title));
}

#[test]
fn blank_list_field_is_present_but_empty() {
    let mut args = bare("f.mkv");
    args.writers = list(&["  ", ""]);
    let work = WorkTodo::new(&args);
    assert_eq!(work.text(Field::Writers), Some(String::new()));
    assert!(work.has(Field::Writers));
    assert!(!work.has(Field::Producers));
}

#[test]
fn bad_numbers_make_fields_absent() {
    let mut args = bare("f.mkv");
    args.year = Some("-2020".to_string());
    args.episode = Some("3".to_string());
    args.season = Some("".to_string());
    let work = WorkTodo::new(&args);
    assert_eq!(work.number(Field::Year), None);
    assert_eq!(work.number(Field::Episode), Some(3));
    assert_eq!(work.number(Field::Season), None);
}

#[test]
fn field_table() {
    assert_eq!(Field::Producers.property_name(), "System.Media.Producer");
    assert_eq!(Field::Title.property_name(), "System.Title");
    assert_eq!(Field::Tags.property_name(), "System.Keywords");
    assert_eq!(Field::Subtitle.property_name(), "System.Media.SubTitle");
    assert_eq!(Field::Genres.property_name(), "System.Music.Genre");
    assert_eq!(Field::Artists.property_name(), "System.Author");
    assert_eq!(Field::SeriesName.property_name(), "System.Media.SeriesName");
    assert_eq!(Field::Writers.property_name(), "System.Media.Writer");
    assert_eq!(Field::Episode.property_name(), "System.Media.EpisodeNumber");
    assert_eq!(Field::Year.property_name(), "System.Media.Year");
    assert_eq!(Field::Season.property_name(), "System.Media.SeasonNumber");
    assert_eq!(Field::SeriesName.field_name(), "series_name");
    assert_eq!(Field::at(0), Field::Producers);
    assert_eq!(Field::at(4), Field::Genres);
    assert_eq!(Field::at(10), Field::Season);
}

#[test]
fn title_season_tags_are_written_in_order() {
    let mut args = bare("f.mkv");
    args.title = Some("Pilot".to_string());
    args.season = Some("1".to_string());
    args.tags = list(&["action:drama"]);
    let work = WorkTodo::new(&args);
    let (issued, outcome) = drive(&work, |_| false);
    assert!(outcome.is_ok());
    assert_eq!(
        issued,
        vec![
            Op::OpenStore,
            Op::ResolveKey(Field::Title),
            Op::BuildTextVector(Field::Title),
            Op::ExtractFirst(Field::Title),
            Op::SetValue(Field::Title),
            Op::ResolveKey(Field::Tags),
            Op::BuildTextVector(Field::Tags),
            Op::SetValue(Field::Tags),
            Op::ResolveKey(Field::Season),
            Op::BuildNumberVector(Field::Season),
            Op::ExtractFirst(Field::Season),
            Op::SetValue(Field::Season),
            Op::Commit,
        ]
    );
    assert_eq!(issued.iter().filter(|op| matches!(op, Op::SetValue(_))).count(), 3);
    assert_eq!(issued.iter().filter(|op| **op == Op::Commit).count(), 1);
}

#[test]
fn failed_genres_write_stops_everything_after() {
    let mut args = bare("f.mkv");
    args.genres = list(&["Drama"]);
    args.artists = list(&["Someone"]);
    args.series_name = Some("Show".to_string());
    args.writers = list(&["W"]);
    args.episode = Some("2".to_string());
    args.year = Some("2001".to_string());
    args.season = Some("1".to_string());
    args.title = Some("T".to_string());
    let work = WorkTodo::new(&args);
    let (issued, outcome) = drive(&work, |op| op == Op::SetValue(Field::Genres));
    assert_eq!(issued.last(), Some(&Op::SetValue(Field::Genres)));
    assert!(!issued.contains(&Op::Commit));
    for f in [Field::Artists, Field::SeriesName, Field::Writers, Field::Episode, Field::Year, Field::Season] {
        assert!(!issued.contains(&Op::ResolveKey(f)));
    }
    assert!(issued.contains(&Op::SetValue(Field::Title)));
    match outcome {
        Err(WorkError::FieldWrite { field, failure, cause }) => {
            assert_eq!(field, Field::Genres);
            assert_eq!(failure, Failure::StoreWrite);
            assert_eq!(cause, "host said no");
        }
        other => panic!("unexpected outcome {:?}", other),
    }
}

#[test]
fn open_failure_attempts_no_write() {
    let mut args = bare("missing.mkv");
    args.title = Some("T".to_string());
    let work = WorkTodo::new(&args);
    let (issued, outcome) = drive(&work, |op| op == Op::OpenStore);
    assert_eq!(issued, vec![Op::OpenStore]);
    match outcome {
        Err(WorkError::StoreOpen { path, cause }) => {
            assert_eq!(path, "missing.mkv");
            assert_eq!(cause, "host said no");
        }
        other => panic!("unexpected outcome {:?}", other),
    }
}

#[test]
fn key_resolution_failure_is_reported() {
    let mut args = bare("f.mkv");
    args.producers = list(&["P"]);
    let work = WorkTodo::new(&args);
    let (issued, outcome) = drive(&work, |op| matches!(op, Op::ResolveKey(_)));
    assert_eq!(issued, vec![Op::OpenStore, Op::ResolveKey(Field::Producers)]);
    assert!(matches!(
        outcome,
        Err(WorkError::FieldWrite { field: Field::Producers, failure: Failure::KeyResolution, .. })
    ));
}

#[test]
fn value_construction_failure_is_reported() {
    let mut args = bare("f.mkv");
    args.year = Some("2020".to_string());
    let work = WorkTodo::new(&args);
    let (_, outcome) = drive(&work, |op| matches!(op, Op::ExtractFirst(_)));
    assert!(matches!(
        outcome,
        Err(WorkError::FieldWrite { field: Field::Year, failure: Failure::ValueConstruction, .. })
    ));
}

#[test]
fn commit_failure_is_reported() {
    let work = WorkTodo::new(&bare("f.mkv"));
    let (issued, outcome) = drive(&work, |op| op == Op::Commit);
    assert_eq!(issued, vec![Op::OpenStore, Op::Commit]);
    match outcome {
        Err(WorkError::Commit { cause }) => assert_eq!(cause, "host said no"),
        other => panic!("unexpected outcome {:?}", other),
    }
}

#[test]
fn session_reports_nothing_while_running() {
    let work = WorkTodo::new(&bare("f.mkv"));
    let session = Session::start(&work);
    assert_eq!(session.next_op(), Some(Op::OpenStore));
    assert!(session.finish().is_none());
}

#[test]
fn finished_session_ignores_further_events() {
    let work = WorkTodo::new(&bare("f.mkv"));
    let mut session = Session::start(&work);
    session.advance(Event::Failed("gone".to_string()));
    assert_eq!(session.next_op(), None);
    session.advance(Event::Done);
    assert_eq!(session.next_op(), None);
    assert!(matches!(session.finish(), Some(Err(WorkError::StoreOpen { .. }))));
}
