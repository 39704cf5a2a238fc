//! Files that are named by a `content://` URI, which only an Android content resolver can
//! open. Calls into the resolver happen outside; the decisions between them are here.
use crate::text::option_view;
use vstd::prelude::*;
#[allow(unused_imports)]
use vstd::string::*;

verus! {

/// Why the content behind a URI could not be had.
pub enum ContentError {
    /// The platform has no content resolver.
    Unsupported(String),
    /// The resolver gave no stream.
    NoStream,
}

impl ContentError {
    /// The reason in words.
    pub open spec fn words(self) -> Seq<char> {
        match self {
            ContentError::Unsupported(uri) => "当前平台不支持 content:// URI: "@ + uri@,
            ContentError::NoStream => "无法打开文件流（URI 可能无效或权限不足）"@,
        }
    }

    /// The reason in words.
    pub fn message(&self) -> (r: String)
        ensures
            r@ == self.words(),
    {
        match self {
            ContentError::Unsupported(uri) => {
                let mut text = "当前平台不支持 content:// URI: ".to_owned();
                text.append(uri.as_str());
                text
            },
            ContentError::NoStream => "无法打开文件流（URI 可能无效或权限不足）".to_owned(),
        }
    }
}

/// The content behind a URI on a platform without a content resolver: there is never any.
pub fn read_content_uri(uri: &str) -> (r: Result<Vec<u8>, ContentError>)
    ensures
        r matches Err(ContentError::Unsupported(u)) && u@ == uri@,
{
    Err(ContentError::Unsupported(uri.to_owned()))
}

/// The file name behind a URI on a platform without a content resolver: there is never one.
pub fn content_uri_filename(_uri: &str) -> (r: Option<String>)
    ensures
        r is None,
{
    None
}

// ---------------------------------------------------------------------------
// Reading a stream
// ---------------------------------------------------------------------------

/// Whether there is a stream to read: the resolver may give none without failing.
pub fn check_stream(is_null: bool) -> (r: Result<(), ContentError>)
    ensures
        is_null ==> r == Err::<(), ContentError>(ContentError::NoStream),
        !is_null ==> r == Ok::<(), ContentError>(()),
{
    if is_null {
        Err(ContentError::NoStream)
    } else {
        Ok(())
    }
}

/// One read of a stream: the buffer, and the number of bytes that the read put at its
/// start. At the end of the stream that number is not positive.
pub type Chunk = (Seq<u8>, i32);

/// The bytes that one read of a stream brought.
pub open spec fn bytes_read(chunk: Chunk) -> Seq<u8> {
    if chunk.1 > 0 {
        chunk.0.take(chunk.1 as int)
    } else {
        Seq::empty()
    }
}

/// Takes up one read of a stream, and says whether to read on.
pub fn append_chunk(acc: &mut Vec<u8>, buffer: &[u8], n: i32) -> (r: bool)
    requires
        n <= buffer@.len(),
    ensures
        r == (n > 0),
        final(acc)@ == old(acc)@ + bytes_read((buffer@, n)),
        n <= 0 ==> final(acc)@ == old(acc)@,
        n > 0 ==> final(acc)@ == old(acc)@ + buffer@.take(n as int),
{
    if n <= 0 {
        proof {
            assert(acc@ + Seq::<u8>::empty() =~= acc@);
        }
        return false;
    }
    let count: usize = n as usize;
    for i in 0..count
        invariant
            count == n,
            n <= buffer@.len(),
            acc@ == old(acc)@ + buffer@.take(i as int),
    {
        acc.push(buffer[i]);
        proof {
            assert(acc@ =~= old(acc)@ + buffer@.take(i + 1));
        }
    }
    true
}

/// What has been collected after a series of reads, each taken up in turn.
pub open spec fn collected(chunks: Seq<Chunk>) -> Seq<u8>
    decreases chunks.len(),
{
    if chunks.len() == 0 {
        Seq::empty()
    } else {
        collected(chunks.drop_last()) + bytes_read(chunks.last())
    }
}

/// However a stream is cut into reads, what is collected is what the first reads brought,
/// followed by what the later ones brought: nothing is lost, doubled or put out of order.
pub proof fn reads_are_collected_in_order(first: Seq<Chunk>, later: Seq<Chunk>)
    ensures
        collected(first + later) == collected(first) + collected(later),
    decreases later.len(),
{
    let all = first + later;
    if later.len() == 0 {
        assert(all =~= first);
        assert(collected(first) + Seq::<u8>::empty() =~= collected(first));
    } else {
        reads_are_collected_in_order(first, later.drop_last());
        assert(all.drop_last() =~= first + later.drop_last());
        assert(all.last() == later.last());
        let part = bytes_read(later.last());
        assert(collected(first) + (collected(later.drop_last()) + part) =~= collected(first)
            + collected(later.drop_last()) + part);
    }
}

// ---------------------------------------------------------------------------
// The display name
// ---------------------------------------------------------------------------

/// The column of a query's result that holds the name to display.
pub const NAME_COLUMN: &'static str = "_display_name";

/// What a call into the resolver, or into the result of its query, came to.
pub enum NameEvent<S> {
    /// A call failed.
    CallFailed,
    /// The query was made; it may give no result without failing.
    Queried { is_null: bool },
    /// The result was moved to its first row, if it has one.
    Moved(bool),
    /// The name column has the given index; a negative one where there is no such column.
    Column(i32),
    /// The name was read, as far as there is one that can be read.
    Read(Option<S>),
}

/// What to do next to learn the name.
pub enum NameAction<S> {
    /// Move the result to its first row.
    MoveToFirst,
    /// Ask for the index of the name column.
    FindColumn,
    /// Read the column of the given index.
    ReadColumn(i32),
    /// The outcome; the result is to be closed first where that is said.
    Finish { name: Option<S>, close: bool },
}

impl View for NameEvent<String> {
    type V = NameEvent<Seq<char>>;

    open spec fn view(&self) -> NameEvent<Seq<char>> {
        match *self {
            NameEvent::CallFailed => NameEvent::CallFailed,
            NameEvent::Queried { is_null } => NameEvent::Queried { is_null },
            NameEvent::Moved(moved) => NameEvent::Moved(moved),
            NameEvent::Column(index) => NameEvent::Column(index),
            NameEvent::Read(name) => NameEvent::Read(option_view(name)),
        }
    }
}

impl View for NameAction<String> {
    type V = NameAction<Seq<char>>;

    open spec fn view(&self) -> NameAction<Seq<char>> {
        match *self {
            NameAction::MoveToFirst => NameAction::MoveToFirst,
            NameAction::FindColumn => NameAction::FindColumn,
            NameAction::ReadColumn(index) => NameAction::ReadColumn(index),
            NameAction::Finish { name, close } => NameAction::Finish {
                name: option_view(name),
                close,
            },
        }
    }
}

/// Whether the way to the name goes on: the query gave a result, the result has a row, or
/// it has the column.
pub open spec fn goes_on(event: NameEvent<Seq<char>>) -> bool {
    ||| event == NameEvent::<Seq<char>>::Queried { is_null: false }
    ||| event == NameEvent::<Seq<char>>::Moved(true)
    ||| event matches NameEvent::Column(index) && index >= 0
}

/// What is done on an event. As long as the way goes on: the first row, then the column,
/// then what it holds. Where it ends there is the name that was read, if one was, and the
/// result is to be closed, unless the query gave none or a call has failed.
pub open spec fn name_action(event: NameEvent<Seq<char>>) -> NameAction<Seq<char>> {
    if goes_on(event) {
        if event is Queried {
            NameAction::MoveToFirst
        } else if event is Moved {
            NameAction::FindColumn
        } else {
            NameAction::ReadColumn(event->Column_0)
        }
    } else {
        NameAction::Finish {
            name: if event is Read {
                event->Read_0
            } else {
                None
            },
            close: !(event is CallFailed || event is Queried),
        }
    }
}

/// Takes up what a call came to on the way to the display name of a URI, and says what to
/// do next.
pub fn display_name_step(event: NameEvent<String>) -> (r: NameAction<String>)
    ensures
        r@ == name_action(event@),
{
    match event {
        NameEvent::CallFailed => NameAction::Finish { name: None, close: false },
        NameEvent::Queried { is_null } => if is_null {
            NameAction::Finish { name: None, close: false }
        } else {
            NameAction::MoveToFirst
        },
        NameEvent::Moved(moved) => if moved {
            NameAction::FindColumn
        } else {
            NameAction::Finish { name: None, close: true }
        },
        NameEvent::Column(index) => if index >= 0 {
            NameAction::ReadColumn(index)
        } else {
            NameAction::Finish { name: None, close: true }
        },
        NameEvent::Read(name) => NameAction::Finish { name, close: true },
    }
}

// ---------------------------------------------------------------------------
// What the search for the display name guarantees
// ---------------------------------------------------------------------------

/// What the calls come to, each if it is made; nothing stands for a call that fails.
pub struct Resolver {
    /// Whether the query gives no result.
    pub is_null: Option<bool>,
    /// Whether the result has a first row.
    pub has_row: Option<bool>,
    /// The index of the name column.
    pub column: Option<i32>,
    /// What the columns hold in that row, by their index.
    pub cells: spec_fn(i32) -> Option<Option<Seq<char>>>,
}

impl Resolver {
    /// What the query comes to.
    pub open spec fn queried(self) -> NameEvent<Seq<char>> {
        match self.is_null {
            Some(is_null) => NameEvent::Queried { is_null },
            None => NameEvent::CallFailed,
        }
    }

    /// What comes of an action.
    pub open spec fn reply(self, action: NameAction<Seq<char>>) -> NameEvent<Seq<char>> {
        match action {
            NameAction::MoveToFirst => match self.has_row {
                Some(moved) => NameEvent::Moved(moved),
                None => NameEvent::CallFailed,
            },
            NameAction::FindColumn => match self.column {
                Some(index) => NameEvent::Column(index),
                None => NameEvent::CallFailed,
            },
            NameAction::ReadColumn(index) => match (self.cells)(index) {
                Some(name) => NameEvent::Read(name),
                None => NameEvent::CallFailed,
            },
            NameAction::Finish { .. } => NameEvent::CallFailed,
        }
    }

    /// What the search ends with after at most `steps` more events, the first of which is
    /// `event`: the name, and whether the result is closed.
    pub open spec fn search(self, event: NameEvent<Seq<char>>, steps: nat) -> Option<
        (Option<Seq<char>>, bool),
    >
        decreases steps,
    {
        if steps == 0 {
            None
        } else {
            match name_action(event) {
                NameAction::Finish { name, close } => Some((name, close)),
                action => self.search(self.reply(action), (steps - 1) as nat),
            }
        }
    }

    /// The name that can be had: that of a result which has a row, the column, and a name in
    /// it.
    pub open spec fn name(self) -> Option<Seq<char>> {
        if self.is_null == Some(false) && self.has_row == Some(true) && self.column is Some
            && self.column->0 >= 0 && (self.cells)(self.column->0) is Some {
            (self.cells)(self.column->0)->0
        } else {
            None
        }
    }

    /// Whether a result was given and no call was made that failed.
    pub open spec fn runs_through(self) -> bool {
        &&& self.is_null == Some(false)
        &&& self.has_row is Some
        &&& self.has_row == Some(true) ==> self.column is Some
        &&& self.has_row == Some(true) && self.column->0 >= 0 ==> (self.cells)(
            self.column->0,
        ) is Some
    }
}

/// The search ends within four events, whatever the calls come to. A name comes out exactly
/// if the query gives a result, the result has a row and the name column, and the column
/// holds a name there; it is the name that the column holds. The result is closed exactly
/// if there is one and no call has failed.
pub proof fn search_gives_the_name(resolver: Resolver)
    ensures
        resolver.search(resolver.queried(), 4) == Some((resolver.name(), resolver.runs_through())),
{
    reveal_with_fuel(Resolver::search, 5);
}

// ---------------------------------------------------------------------------
// What single steps guarantee
// ---------------------------------------------------------------------------

/// A read brings the bytes at the start of the buffer, as many as it says; a number that is
/// not positive brings none. What reads have brought comes together in their order.
pub proof fn read_brings_the_start_of_the_buffer(chunks: Seq<Chunk>, buffer: Seq<u8>, n: i32)
    requires
        n <= buffer.len(),
    ensures
        n > 0 ==> bytes_read((buffer, n)).len() == n,
        n <= 0 ==> bytes_read((buffer, n)).len() == 0,
        forall|i: int| 0 <= i < n ==> #[trigger] bytes_read((buffer, n))[i] == buffer[i],
        collected(Seq::empty()).len() == 0,
        collected(chunks.push((buffer, n))) == collected(chunks) + bytes_read((buffer, n)),
{
    assert(chunks.push((buffer, n)).drop_last() =~= chunks);
}

/// Whether a read brings the bytes of a stream from one position up to another.
pub open spec fn brings(stream: Seq<u8>, chunk: Chunk, from: int, to: int) -> bool {
    &&& 0 <= from <= to <= stream.len()
    &&& chunk.1 == to - from
    &&& to - from <= chunk.0.len()
    &&& forall|i: int| from <= i < to ==> #[trigger] stream[i] == chunk.0[i - from]
}

/// However a stream is cut into reads, and however much longer the buffers are, what is
/// collected is the stream: if each read brings its bytes from where the one before ended,
/// nothing of it is missing, doubled or added.
pub proof fn whole_stream_is_collected(stream: Seq<u8>, chunks: Seq<Chunk>, ends: Seq<int>)
    requires
        ends.len() == chunks.len() + 1,
        ends[0] == 0,
        forall|k: int|
            0 <= k < chunks.len() ==> brings(stream, #[trigger] chunks[k], ends[k], ends[k + 1]),
    ensures
        collected(chunks) == stream.take(ends.last()),
    decreases chunks.len(),
{
    if chunks.len() == 0 {
        assert(collected(chunks) =~= stream.take(0));
    } else {
        let front = chunks.drop_last();
        let before = ends.drop_last();
        let k = chunks.len() - 1;
        assert forall|j: int| 0 <= j < front.len() implies brings(
            stream,
            #[trigger] front[j],
            before[j],
            before[j + 1],
        ) by {
            assert(front[j] == chunks[j]);
            assert(before[j] == ends[j] && before[j + 1] == ends[j + 1]);
        }
        whole_stream_is_collected(stream, front, before);
        let last = chunks[k];
        assert(brings(stream, last, ends[k], ends[k + 1]));
        assert(bytes_read(last) =~= stream.subrange(ends[k], ends[k + 1]));
        assert(stream.take(ends[k]) + stream.subrange(ends[k], ends[k + 1]) =~= stream.take(
            ends[k + 1],
        ));
    }
}

/// Each step on the way to the name follows from what the last call came to; the name that
/// comes out is the one that was read, character for character.
pub proof fn name_is_sought_step_by_step(event: NameEvent<String>, r: NameAction<String>)
    requires
        call_ensures(display_name_step, (event,), r),
    ensures
        event matches NameEvent::CallFailed ==> (r matches NameAction::Finish { name, close }
            && name is None && !close),
        event matches NameEvent::Queried { is_null } ==> if is_null {
            r matches NameAction::Finish { name, close } && name is None && !close
        } else {
            r is MoveToFirst
        },
        event matches NameEvent::Moved(moved) ==> if moved {
            r is FindColumn
        } else {
            r matches NameAction::Finish { name, close } && name is None && close
        },
        event matches NameEvent::Column(index) ==> if index >= 0 {
            r matches NameAction::ReadColumn(i) && i == index
        } else {
            r matches NameAction::Finish { name, close } && name is None && close
        },
        event matches NameEvent::Read(Some(found)) ==> (r matches NameAction::Finish { name, close }
            && (name matches Some(n) && n@ == found@) && close),
        event matches NameEvent::Read(None) ==> (r matches NameAction::Finish { name, close }
            && name is None && close),
{
}

/// Where there is no resolver, the reason holds the whole URI.
pub proof fn refusal_names_the_uri(
    uri: &str,
    r: Result<Vec<u8>, ContentError>,
    words: String,
    why: &ContentError,
)
    requires
        call_ensures(read_content_uri, (uri,), r),
        r == Err::<Vec<u8>, ContentError>(*why),
        call_ensures(ContentError::message, (why,), words),
    ensures
        words@ == "当前平台不支持 content:// URI: "@ + uri@,
{
}

} // verus!
