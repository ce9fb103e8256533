//! The steps by which a screen cast begins.

use crate::text::joined;
use vstd::prelude::*;

verus! {

/// The steps, in their order.
#[derive(Clone, Copy, Debug, PartialEq, Eq, Structural)]
pub enum PortalStage {
    Connect,
    CreateSession,
    CursorModes,
    SelectSources,
    Start,
    TokenDirectory,
    SaveToken,
    OpenRemote,
    Open,
}

/// What a step brought.
#[derive(Clone, Copy, Debug, PartialEq, Eq, Structural)]
pub enum PortalAnswer {
    Done,
    /// Whether the portal can say where the cursor is.
    CursorModes { metadata: bool },
    /// Whether there is a stream, and a token to be saved in a file that lies in a directory or
    /// not.
    Started { has_stream: bool, has_token: bool, has_parent: bool },
}

/// The words for what went wrong at a step.
pub open spec fn failure_words(stage: PortalStage) -> Seq<char> {
    match stage {
        PortalStage::Connect => "Failed to connect to ScreenCast portal: "@,
        PortalStage::CreateSession => "Failed to create ScreenCast session: "@,
        PortalStage::CursorModes => "Failed to query ScreenCast cursor modes: "@,
        PortalStage::SelectSources => "Failed to select ScreenCast source: "@,
        PortalStage::Start => "Failed to start ScreenCast session: "@,
        PortalStage::TokenDirectory => "Failed to create ScreenCast token directory: "@,
        PortalStage::SaveToken => "Failed to save ScreenCast restore token: "@,
        PortalStage::OpenRemote => "Failed to open PipeWire remote: "@,
        PortalStage::Open => ""@,
    }
}

/// The place of a step in their order.
pub open spec fn rank(stage: PortalStage) -> int {
    match stage {
        PortalStage::Connect => 0,
        PortalStage::CreateSession => 1,
        PortalStage::CursorModes => 2,
        PortalStage::SelectSources => 3,
        PortalStage::Start => 4,
        PortalStage::TokenDirectory => 5,
        PortalStage::SaveToken => 6,
        PortalStage::OpenRemote => 7,
        PortalStage::Open => 8,
    }
}

/// Whether an answer belongs to a step.
pub open spec fn answers(stage: PortalStage, answer: PortalAnswer) -> bool {
    match stage {
        PortalStage::CursorModes => answer is CursorModes,
        PortalStage::Start => answer is Started,
        PortalStage::Open => false,
        _ => answer is Done,
    }
}

/// The step after an answer, or what is said where there is none.
pub open spec fn after_answer(stage: PortalStage, answer: PortalAnswer) -> Result<
    PortalStage,
    Seq<char>,
> {
    match stage {
        PortalStage::Connect => Ok(PortalStage::CreateSession),
        PortalStage::CreateSession => Ok(PortalStage::CursorModes),
        PortalStage::CursorModes => if answer->metadata {
            Ok(PortalStage::SelectSources)
        } else {
            Err("The Wayland ScreenCast portal does not support cursor metadata"@)
        },
        PortalStage::SelectSources => Ok(PortalStage::Start),
        PortalStage::Start => if !answer->has_stream {
            Err("ScreenCast portal returned no streams"@)
        } else if !answer->has_token {
            Ok(PortalStage::OpenRemote)
        } else if answer->has_parent {
            Ok(PortalStage::TokenDirectory)
        } else {
            Ok(PortalStage::SaveToken)
        },
        PortalStage::TokenDirectory => Ok(PortalStage::SaveToken),
        PortalStage::SaveToken => Ok(PortalStage::OpenRemote),
        PortalStage::OpenRemote => Ok(PortalStage::Open),
        PortalStage::Open => Ok(PortalStage::Open),
    }
}

fn failure_text(stage: PortalStage) -> (r: &'static str)
    ensures
        r@ == failure_words(stage),
{
    match stage {
        PortalStage::Connect => "Failed to connect to ScreenCast portal: ",
        PortalStage::CreateSession => "Failed to create ScreenCast session: ",
        PortalStage::CursorModes => "Failed to query ScreenCast cursor modes: ",
        PortalStage::SelectSources => "Failed to select ScreenCast source: ",
        PortalStage::Start => "Failed to start ScreenCast session: ",
        PortalStage::TokenDirectory => "Failed to create ScreenCast token directory: ",
        PortalStage::SaveToken => "Failed to save ScreenCast restore token: ",
        PortalStage::OpenRemote => "Failed to open PipeWire remote: ",
        PortalStage::Open => "",
    }
}

/// The step after the outcome of a step, or what is said where the screen cast does not begin.
pub fn portal_step(stage: PortalStage, outcome: Result<PortalAnswer, String>) -> (r: Result<
    PortalStage,
    String,
>)
    requires
        outcome is Ok ==> answers(stage, outcome->Ok_0),
    ensures
        match outcome {
            Err(error) => r is Err && r->Err_0@ == failure_words(stage) + error@,
            Ok(answer) => match (r, after_answer(stage, answer)) {
                (Ok(next), Ok(wanted)) => next == wanted,
                (Err(message), Err(wanted)) => message@ == wanted,
                _ => false,
            },
        },
{
    let answer = match outcome {
        Ok(answer) => answer,
        Err(error) => return Err(joined(failure_text(stage), error.as_str())),
    };
    match answer {
        PortalAnswer::CursorModes { metadata } => if metadata {
            Ok(PortalStage::SelectSources)
        } else {
            Err("The Wayland ScreenCast portal does not support cursor metadata".to_owned())
        },
        PortalAnswer::Started { has_stream, has_token, has_parent } => if !has_stream {
            Err("ScreenCast portal returned no streams".to_owned())
        } else if !has_token {
            Ok(PortalStage::OpenRemote)
        } else if has_parent {
            Ok(PortalStage::TokenDirectory)
        } else {
            Ok(PortalStage::SaveToken)
        },
        PortalAnswer::Done => match stage {
            PortalStage::Connect => Ok(PortalStage::CreateSession),
            PortalStage::CreateSession => Ok(PortalStage::CursorModes),
            PortalStage::SelectSources => Ok(PortalStage::Start),
            PortalStage::TokenDirectory => Ok(PortalStage::SaveToken),
            PortalStage::SaveToken => Ok(PortalStage::OpenRemote),
            _ => Ok(PortalStage::Open),
        },
    }
}

/// Each step is followed by a later one, so that the screen cast begins, or fails, after at most
/// eight steps.
pub proof fn law_steps_lead_on(stage: PortalStage, answer: PortalAnswer)
    requires
        answers(stage, answer),
        after_answer(stage, answer) is Ok,
    ensures
        rank(stage) < rank(after_answer(stage, answer)->Ok_0) <= 8,
{
}

/// A token that the portal gave is saved before the screen cast begins.
pub proof fn law_tokens_are_saved(answer: PortalAnswer)
    requires
        answers(PortalStage::Start, answer),
        answer->has_stream,
        answer->has_token,
    ensures
        ({
            let next = after_answer(PortalStage::Start, answer)->Ok_0;
            next == PortalStage::SaveToken || (next == PortalStage::TokenDirectory && after_answer(
                next,
                PortalAnswer::Done,
            ) == Ok::<PortalStage, Seq<char>>(PortalStage::SaveToken))
        }),
{
}

/// The steps by which the stream of an open screen cast begins, in their order.
#[derive(Clone, Copy, Debug, PartialEq, Eq, Structural)]
pub enum StreamStage {
    MainLoop,
    Context,
    Remote,
    Stream,
    Listener,
    FormatParameter,
    Connect,
}

/// What is said where a step failed.
pub open spec fn stream_failure(stage: StreamStage, error: Seq<char>) -> Seq<char> {
    match stage {
        StreamStage::MainLoop => "Could not create PipeWire main loop: "@ + error,
        StreamStage::Context => "Could not create PipeWire context: "@ + error,
        StreamStage::Remote => "Could not connect to portal PipeWire remote: "@ + error,
        StreamStage::Stream => "Could not create PipeWire stream: "@ + error,
        StreamStage::Listener => "Could not register PipeWire listener: "@ + error,
        StreamStage::FormatParameter => "Could not build PipeWire format parameter: "@ + error,
        StreamStage::Connect => "Could not connect PipeWire stream: "@ + error,
    }
}

/// What is said where a step failed.
pub fn stream_failure_text(stage: StreamStage, error: &str) -> (r: String)
    ensures
        r@ == stream_failure(stage, error@),
{
    let words: &str = match stage {
        StreamStage::MainLoop => "Could not create PipeWire main loop: ",
        StreamStage::Context => "Could not create PipeWire context: ",
        StreamStage::Remote => "Could not connect to portal PipeWire remote: ",
        StreamStage::Stream => "Could not create PipeWire stream: ",
        StreamStage::Listener => "Could not register PipeWire listener: ",
        StreamStage::FormatParameter => "Could not build PipeWire format parameter: ",
        StreamStage::Connect => "Could not connect PipeWire stream: ",
    };
    joined(words, error)
}

/// The number of bytes of the metadata with a cursor image of this many pixels on each side,
/// where the metadata itself takes `meta_size` bytes.
pub fn cursor_size(meta_size: i32, side: i32) -> (r: i32)
    requires
        0 <= meta_size <= 0x1_0000,
        0 <= side <= 256,
    ensures
        r == meta_size + side * side * 4,
{
    assert(0 <= side * side <= 256 * 256) by (nonlinear_arith)
        requires
            0 <= side <= 256,
    ;
    meta_size + side * side * 4
}

/// A screen cast goes from the portal over a session, the cursor modes and the sources to its
/// start, then, without a token, straight to the remote. It needs to know where the cursor is and
/// a stream.
pub proof fn law_screen_casts_begin_step_by_step(metadata: bool, has_stream: bool, has_parent: bool)
    ensures
        after_answer(PortalStage::Connect, PortalAnswer::Done) == Ok::<PortalStage, Seq<char>>(
            PortalStage::CreateSession,
        ),
        after_answer(PortalStage::CreateSession, PortalAnswer::Done) == Ok::<
            PortalStage,
            Seq<char>,
        >(PortalStage::CursorModes),
        after_answer(PortalStage::CursorModes, PortalAnswer::CursorModes { metadata })
            is Ok <==> metadata,
        after_answer(PortalStage::CursorModes, PortalAnswer::CursorModes { metadata: true }) == Ok::<
            PortalStage,
            Seq<char>,
        >(PortalStage::SelectSources),
        after_answer(PortalStage::SelectSources, PortalAnswer::Done) == Ok::<PortalStage, Seq<char>>(
            PortalStage::Start,
        ),
        after_answer(
            PortalStage::Start,
            PortalAnswer::Started { has_stream, has_token: false, has_parent },
        ) is Ok <==> has_stream,
        after_answer(
            PortalStage::Start,
            PortalAnswer::Started { has_stream: true, has_token: false, has_parent },
        ) == Ok::<PortalStage, Seq<char>>(PortalStage::OpenRemote),
        after_answer(
            PortalStage::Start,
            PortalAnswer::Started { has_stream: true, has_token: true, has_parent },
        ) == Ok::<PortalStage, Seq<char>>(
            if has_parent {
                PortalStage::TokenDirectory
            } else {
                PortalStage::SaveToken
            },
        ),
        after_answer(
            PortalStage::Start,
            PortalAnswer::Started { has_stream: false, has_token: true, has_parent },
        ) is Err,
        after_answer(PortalStage::SaveToken, PortalAnswer::Done) == Ok::<PortalStage, Seq<char>>(
            PortalStage::OpenRemote,
        ),
        after_answer(PortalStage::OpenRemote, PortalAnswer::Done) == Ok::<PortalStage, Seq<char>>(
            PortalStage::Open,
        ),
{
}

} // verus!
