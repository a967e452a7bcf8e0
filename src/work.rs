//! The metadata descriptor and the table that maps each field to its
//! property name and value shape.
use crate::normalize::{flatten_multi_to_win_fmt, normalized_field};
use crate::text::{decimal_value, parse_decimal};
use vstd::prelude::*;

verus! {

/// The fields that can be written, in the order in which they are written.
#[derive(Clone, Copy, Debug, PartialEq, Eq, Structural)]
pub enum Field {
    Producers,
    Title,
    Tags,
    Subtitle,
    Genres,
    Artists,
    SeriesName,
    Writers,
    Episode,
    Year,
    Season,
}

/// How a field's value is sent to the store.
#[derive(Clone, Copy, Debug, PartialEq, Eq, Structural)]
pub enum Shape {
    /// A delimited string that the store parses into a list of strings.
    List,
    /// One string.
    Text,
    /// One unsigned integer.
    Number,
}

pub const FIELD_COUNT: usize = 11;

/// The fixed order of the writes.
pub open spec fn field_order() -> Seq<Field> {
    seq![
        Field::Producers,
        Field::Title,
        Field::Tags,
        Field::Subtitle,
        Field::Genres,
        Field::Artists,
        Field::SeriesName,
        Field::Writers,
        Field::Episode,
        Field::Year,
        Field::Season,
    ]
}

/// The place of a field in the fixed order.
pub open spec fn rank(f: Field) -> int {
    match f {
        Field::Producers => 0,
        Field::Title => 1,
        Field::Tags => 2,
        Field::Subtitle => 3,
        Field::Genres => 4,
        Field::Artists => 5,
        Field::SeriesName => 6,
        Field::Writers => 7,
        Field::Episode => 8,
        Field::Year => 9,
        Field::Season => 10,
    }
}

pub open spec fn shape_of(f: Field) -> Shape {
    match f {
        Field::Producers | Field::Tags | Field::Genres | Field::Artists | Field::Writers => Shape::List,
        Field::Title | Field::Subtitle | Field::SeriesName => Shape::Text,
        Field::Episode | Field::Year | Field::Season => Shape::Number,
    }
}

pub open spec fn property_of(f: Field) -> &'static str {
    match f {
        Field::Producers => "System.Media.Producer",
        Field::Title => "System.Title",
        Field::Tags => "System.Keywords",
        Field::Subtitle => "System.Media.SubTitle",
        Field::Genres => "System.Music.Genre",
        Field::Artists => "System.Author",
        Field::SeriesName => "System.Media.SeriesName",
        Field::Writers => "System.Media.Writer",
        Field::Episode => "System.Media.EpisodeNumber",
        Field::Year => "System.Media.Year",
        Field::Season => "System.Media.SeasonNumber",
    }
}

pub open spec fn name_of(f: Field) -> &'static str {
    match f {
        Field::Producers => "producers",
        Field::Title => "title",
        Field::Tags => "tags",
        Field::Subtitle => "subtitle",
        Field::Genres => "genres",
        Field::Artists => "artists",
        Field::SeriesName => "series_name",
        Field::Writers => "writers",
        Field::Episode => "episode",
        Field::Year => "year",
        Field::Season => "season",
    }
}

impl Field {
    /// The field at place `i` of the fixed order.
    pub fn at(i: usize) -> (f: Field)
        requires
            i < FIELD_COUNT,
        ensures
            f == field_order()[i as int],
            rank(f) == i,
    {
        match i {
            0 => Field::Producers,
            1 => Field::Title,
            2 => Field::Tags,
            3 => Field::Subtitle,
            4 => Field::Genres,
            5 => Field::Artists,
            6 => Field::SeriesName,
            7 => Field::Writers,
            8 => Field::Episode,
            9 => Field::Year,
            _ => Field::Season,
        }
    }

    pub fn shape(self) -> (s: Shape)
        ensures
            s == shape_of(self),
    {
        match self {
            Field::Producers | Field::Tags | Field::Genres | Field::Artists | Field::Writers => Shape::List,
            Field::Title | Field::Subtitle | Field::SeriesName => Shape::Text,
            Field::Episode | Field::Year | Field::Season => Shape::Number,
        }
    }

    /// The canonical name of the store property that the field is written to.
    pub fn property_name(self) -> (r: &'static str)
        ensures
            r == property_of(self),
    {
        match self {
            Field::Producers => "System.Media.Producer",
            Field::Title => "System.Title",
            Field::Tags => "System.Keywords",
            Field::Subtitle => "System.Media.SubTitle",
            Field::Genres => "System.Music.Genre",
            Field::Artists => "System.Author",
            Field::SeriesName => "System.Media.SeriesName",
            Field::Writers => "System.Media.Writer",
            Field::Episode => "System.Media.EpisodeNumber",
            Field::Year => "System.Media.Year",
            Field::Season => "System.Media.SeasonNumber",
        }
    }

    /// The name that diagnostics give the field.
    pub fn field_name(self) -> (r: &'static str)
        ensures
            r == name_of(self),
    {
        match self {
            Field::Producers => "producers",
            Field::Title => "title",
            Field::Tags => "tags",
            Field::Subtitle => "subtitle",
            Field::Genres => "genres",
            Field::Artists => "artists",
            Field::SeriesName => "series_name",
            Field::Writers => "writers",
            Field::Episode => "episode",
            Field::Year => "year",
            Field::Season => "season",
        }
    }
}

/// The values given on the command line, before normalisation: the file,
/// every token given for each list field, and the text given for each
/// single-valued field.
pub struct RawArgs {
    pub file: String,
    pub tags: Option<Vec<String>>,
    pub artists: Option<Vec<String>>,
    pub writers: Option<Vec<String>>,
    pub producers: Option<Vec<String>>,
    pub genres: Option<Vec<String>>,
    pub subtitle: Option<String>,
    pub title: Option<String>,
    pub series_name: Option<String>,
    pub year: Option<String>,
    pub episode: Option<String>,
    pub season: Option<String>,
}

/// What a descriptor holds.
pub struct Descriptor {
    pub path: Seq<char>,
    pub tags: Option<Seq<char>>,
    pub artists: Option<Seq<char>>,
    pub writers: Option<Seq<char>>,
    pub producers: Option<Seq<char>>,
    pub subtitle: Option<Seq<char>>,
    pub title: Option<Seq<char>>,
    pub series_name: Option<Seq<char>>,
    pub year: Option<u32>,
    pub episode: Option<u32>,
    pub season: Option<u32>,
    pub genres: Option<Seq<char>>,
}

impl Descriptor {
    /// The text of a list or text field.
    pub open spec fn text(self, f: Field) -> Option<Seq<char>> {
        match f {
            Field::Producers => self.producers,
            Field::Title => self.title,
            Field::Tags => self.tags,
            Field::Subtitle => self.subtitle,
            Field::Genres => self.genres,
            Field::Artists => self.artists,
            Field::SeriesName => self.series_name,
            Field::Writers => self.writers,
            _ => None,
        }
    }

    /// The value of a number field.
    pub open spec fn number(self, f: Field) -> Option<u32> {
        match f {
            Field::Episode => self.episode,
            Field::Year => self.year,
            Field::Season => self.season,
            _ => None,
        }
    }

    /// Whether the field holds a value.
    pub open spec fn has(self, f: Field) -> bool {
        self.text(f) is Some || self.number(f) is Some
    }
}

pub open spec fn text_view(s: Option<String>) -> Option<Seq<char>> {
    match s {
        None => None,
        Some(t) => Some(t@),
    }
}

pub open spec fn number_view(s: Option<String>) -> Option<u32> {
    match s {
        None => None,
        Some(t) => decimal_value(t@),
    }
}

/// The descriptor built from command-line values.
pub open spec fn descriptor_of(a: RawArgs) -> Descriptor {
    Descriptor {
        path: a.file@,
        tags: normalized_field(a.tags),
        artists: normalized_field(a.artists),
        writers: normalized_field(a.writers),
        producers: normalized_field(a.producers),
        genres: normalized_field(a.genres),
        subtitle: text_view(a.subtitle),
        title: text_view(a.title),
        series_name: text_view(a.series_name),
        year: number_view(a.year),
        episode: number_view(a.episode),
        season: number_view(a.season),
    }
}

/// The metadata to write onto one file; it does not change once built.
#[derive(Debug)]
pub struct WorkTodo {
    path: String,
    tags: Option<String>,
    artists: Option<String>,
    writers: Option<String>,
    producers: Option<String>,
    subtitle: Option<String>,
    title: Option<String>,
    series_name: Option<String>,
    year: Option<u32>,
    episode: Option<u32>,
    season: Option<u32>,
    genres: Option<String>,
}

impl View for WorkTodo {
    type V = Descriptor;

    closed spec fn view(&self) -> Descriptor {
        Descriptor {
            path: self.path@,
            tags: text_view(self.tags),
            artists: text_view(self.artists),
            writers: text_view(self.writers),
            producers: text_view(self.producers),
            subtitle: text_view(self.subtitle),
            title: text_view(self.title),
            series_name: text_view(self.series_name),
            year: self.year,
            episode: self.episode,
            season: self.season,
            genres: text_view(self.genres),
        }
    }
}

fn copy_text(s: &Option<String>) -> (r: Option<String>)
    ensures
        text_view(r) == text_view(*s),
{
    match s {
        None => None,
        Some(t) => Some(t.clone()),
    }
}

fn read_number(s: &Option<String>) -> (r: Option<u32>)
    ensures
        r == number_view(*s),
{
    match s {
        None => None,
        Some(t) => parse_decimal(t.as_str()),
    }
}

fn normalize_field(arg: &Option<Vec<String>>) -> (r: Option<String>)
    ensures
        text_view(r) == normalized_field(*arg),
{
    match arg {
        None => flatten_multi_to_win_fmt(None),
        Some(v) => flatten_multi_to_win_fmt(Some(v)),
    }
}

impl WorkTodo {
    /// Builds the descriptor: list fields are normalised, text fields kept
    /// as given, and number fields read as decimal numbers, absent where the
    /// text is not one.
    pub fn new(args: &RawArgs) -> (r: WorkTodo)
        ensures
            r@ == descriptor_of(*args),
    {
        WorkTodo {
            path: args.file.clone(),
            tags: normalize_field(&args.tags),
            artists: normalize_field(&args.artists),
            producers: normalize_field(&args.producers),
            writers: normalize_field(&args.writers),
            genres: normalize_field(&args.genres),
            title: copy_text(&args.title),
            subtitle: copy_text(&args.subtitle),
            series_name: copy_text(&args.series_name),
            year: read_number(&args.year),
            episode: read_number(&args.episode),
            season: read_number(&args.season),
        }
    }

    /// The file that the metadata is written to.
    pub fn path(&self) -> (r: &str)
        ensures
            r@ == self@.path,
    {
        self.path.as_str()
    }

    /// The text of a list or text field, if it holds one.
    pub fn text(&self, f: Field) -> (r: Option<String>)
        ensures
            text_view(r) == self@.text(f),
    {
        match f {
            Field::Producers => copy_text(&self.producers),
            Field::Title => copy_text(&self.title),
            Field::Tags => copy_text(&self.tags),
            Field::Subtitle => copy_text(&self.subtitle),
            Field::Genres => copy_text(&self.genres),
            Field::Artists => copy_text(&self.artists),
            Field::SeriesName => copy_text(&self.series_name),
            Field::Writers => copy_text(&self.writers),
            _ => None,
        }
    }

    /// The value of a number field, if it holds one.
    pub fn number(&self, f: Field) -> (r: Option<u32>)
        ensures
            r == self@.number(f),
    {
        match f {
            Field::Episode => self.episode,
            Field::Year => self.year,
            Field::Season => self.season,
            _ => None,
        }
    }

    /// Whether the field holds a value.
    pub fn has(&self, f: Field) -> (r: bool)
        ensures
            r == self@.has(f),
    {
        match f {
            Field::Producers => self.producers.is_some(),
            Field::Title => self.title.is_some(),
            Field::Tags => self.tags.is_some(),
            Field::Subtitle => self.subtitle.is_some(),
            Field::Genres => self.genres.is_some(),
            Field::Artists => self.artists.is_some(),
            Field::SeriesName => self.series_name.is_some(),
            Field::Writers => self.writers.is_some(),
            Field::Episode => self.episode.is_some(),
            Field::Year => self.year.is_some(),
            Field::Season => self.season.is_some(),
        }
    }
}

} // verus!
