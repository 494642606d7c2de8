use chat_log_parser::parser::{
    extract_chat_messages, extract_info_lines, info_line_to_chat_message, ChatMessageSource,
    InfoLine, Settings,
};
use std::rc::Rc;

const TEST_LOG: &str = "\
[19:08:12] [Render thread/INFO]: [CHAT] * Abigail pockets the lantern as she waits for Azure to return, as well as returning the pen to the space it was retrieved from and smudging away the rectangle.
[19:08:21] [Render thread/INFO]: [CHAT] <EDDIE> holy fuck youre a pixel
[19:08:24] [Render thread/INFO]: [CHAT] <Azure Caraway> 'm gonna go give this to Abigail :3!
[19:08:30] [Render thread/INFO]: [System] [CHAT] [Debug]: Hitboxes: shown
[19:09:02] [Render thread/INFO]: [System] [CHAT] Set own game mode to Spectator Mode
[19:09:05] [Render thread/INFO]: [System] [CHAT] Set own game mode to Creative Mode
[19:09:09] [Render thread/INFO]: [CHAT] <Azure Caraway> gots it!
[19:09:09] [Render thread/INFO]: [System] [CHAT] [Debug]: Hitboxes: hidden
[19:09:47] [Render thread/INFO]: [CHAT] <EDDIE> har har harhar har
[19:10:19] [Render thread/INFO]: [CHAT] <EDDIE> holy fuck do your eyes sway or am i crazy
[19:10:28] [Render thread/INFO]: [CHAT] <EDDIE> thats so swag
[19:10:29] [Render thread/INFO]: [CHAT] <kathrynne> when standing
[19:10:33] [Render thread/INFO]: [System] [CHAT] Set own game mode to Spectator Mode
[19:10:34] [Render thread/INFO]: [System] [CHAT] Set own game mode to Creative Mode
[19:10:44] [Render thread/INFO]: [CHAT] <Abigail> Lovely! Thank you Azure
[19:10:56] [Render thread/INFO]: [CHAT] <kathrynne> theyre just like a pair of glasses
[19:10:57] [Render thread/INFO]: [CHAT] <EDDIE> i changed my zoom button and my primary action button and its fucking me up
[19:11:06] [Render thread/INFO]: [CHAT] <Azure Caraway> yeah of course.! [she hands this over as well]
[19:11:10] [Render thread/INFO]: [CHAT] <EDDIE> oh my yay
[19:11:20] [Render thread/INFO]: [CHAT] <EDDIE> dude we're so fucking short
[19:11:39] [Render thread/INFO]: [CHAT] <EDDIE> rot sized workshop
[19:11:49] [Render thread/INFO]: [CHAT] <Abigail> With that, I believe I will be on my way!
[19:12:12] [Render thread/INFO]: [CHAT] <kathrynne> im planning on redesigning her to have hologram eyes instead because its just easier but im too attached to her glasses/eye screens having secondary motion for the cpm model LOL
[19:12:19] [Render thread/INFO]: [CHAT] <kathrynne> it looks very goofy and fun
[19:12:25] [Render thread/INFO]: [CHAT] <EDDIE> OUUU....its so fun
[19:12:35] [Render thread/INFO]: [CHAT] <EDDIE> ineed to live there
[19:12:53] [Render thread/INFO]: [CHAT] <EDDIE> my zoom button
[19:12:56] [Render thread/INFO]: [System] [CHAT] Entity kathrynne was granted the power Phantom Form from source apoli:command.
[19:12:56] [Render thread/INFO]: [System] [CHAT] Entity kathrynne was granted the power Phasing from source apoli:command.
[19:12:56] [Render thread/INFO]: [System] [CHAT] Entity kathrynne had the power Leap revoked.
[19:13:02] [Render thread/INFO]: [CHAT] <EDDIE> IOASHDIUASHDJASHOJD
[19:13:11] [Render thread/WARN]: Received passengers for unknown entity
[19:13:26] [Render thread/INFO]: [System] [CHAT] Set own game mode to Spectator Mode
[19:13:28] [Render thread/WARN]: Received passengers for unknown entity
[19:13:29] [Render thread/WARN]: Pixels array length (0) is smaller than canvas area (512)
[19:13:31] [Render thread/WARN]: Received passengers for unknown entity
[19:13:36] [Render thread/WARN]: Received passengers for unknown entity
[19:13:38] [Render thread/WARN]: Received passengers for unknown entity
[19:13:43] [Render thread/INFO]: [CHAT] <Abigail> Take care now
[19:13:45] [Render thread/WARN]: Received passengers for unknown entity
[19:13:55] [Render thread/INFO]: [CHAT] <Azure Caraway> i will! um, good luck i souppose
[19:13:57] [Render thread/WARN]: Received passengers for unknown entity
[19:13:59] [Render thread/INFO]: [CHAT] <EDDIE> circle of live
[19:14:00] [Render thread/INFO]: [CHAT] <EDDIE> fi
[19:14:01] [Render thread/WARN]: Received passengers for unknown entity
[19:14:01] [Render thread/INFO]: [CHAT] <EDDIE> life
[19:14:03] [Render thread/WARN]: Class xaero.common.minimap.render.radar.EntityIconModelPartsRenderer$VertexConsumerWrapper does not support optimized vertex writing code paths, which may cause reduced rendering performance
[19:14:14] [Render thread/WARN]: Received passengers for unknown entity
[19:14:18] [Render thread/WARN]: Received passengers for unknown entity
[19:14:27] [Render thread/WARN]: Received passengers for unknown entity
[19:14:32] [Render thread/INFO]: [CHAT] <EDDIE> please call it roommate pride flag
[19:14:36] [Render thread/WARN]: Received passengers for unknown entity
[19:14:42] [Render thread/INFO]: [CHAT] <EDDIE> bro we're so tall
[19:14:44] [Render thread/WARN]: Received passengers for unknown entity
[19:14:49] [Render thread/WARN]: Received passengers for unknown entity
[19:14:52] [Render thread/INFO]: [System] [CHAT] Dimitri left the game
    ";

#[test]
fn test_extract_info_lines() {
    let output = extract_info_lines(TEST_LOG.to_owned());
    println!("{:#?}", output);
}

#[test]
fn test_extract_chat_messages() {
    let output = extract_chat_messages(TEST_LOG.to_owned());
    println!("{:#?}", output);
}

#[test]
fn named_message_scenario() {
    let messages = extract_chat_messages(
        "[19:08:21] [Render thread/INFO]: [CHAT] <EDDIE> holy fuck youre a pixel".to_owned(),
    );
    assert_eq!(messages.len(), 1);
    assert_eq!(messages[0].time, "19:08:21");
    assert_eq!(messages[0].message, "holy fuck youre a pixel");
    match &messages[0].source {
        ChatMessageSource::Named(name) => assert_eq!(name, "EDDIE"),
        _ => panic!("expected a named source"),
    }
}

#[test]
fn emote_message_scenario() {
    let messages = extract_chat_messages(
        "[19:08:12] [Render thread/INFO]: [CHAT] * Abigail pockets the lantern...".to_owned(),
    );
    assert_eq!(messages.len(), 1);
    assert_eq!(messages[0].time, "19:08:12");
    assert_eq!(messages[0].message, "Abigail pockets the lantern...");
    assert!(matches!(messages[0].source, ChatMessageSource::Emote));
}

#[test]
fn system_message_scenario() {
    let messages = extract_chat_messages(
        "[19:09:02] [Render thread/INFO]: [System] [CHAT] Set own game mode to Spectator Mode"
            .to_owned(),
    );
    assert_eq!(messages.len(), 1);
    assert_eq!(messages[0].time, "19:09:02");
    assert_eq!(messages[0].message, "Set own game mode to Spectator Mode");
    assert!(matches!(messages[0].source, ChatMessageSource::System));
}

#[test]
fn wrong_channel_line_is_excluded() {
    let log = "[19:13:11] [Render thread/WARN]: Received passengers for unknown entity".to_owned();
    assert_eq!(extract_info_lines(log.clone()).len(), 0);
    assert_eq!(extract_chat_messages(log).len(), 0);
}

#[test]
fn non_chat_payload_extracts_but_does_not_classify() {
    let log = "[19:14:03] [Render thread/INFO]: [CHAT] [Debug]: Hitboxes: shown".to_owned();
    let lines = extract_info_lines(log.clone());
    assert_eq!(lines.len(), 1);
    assert_eq!(lines[0].time, "19:14:03");
    assert_eq!(lines[0].content, "[CHAT] [Debug]: Hitboxes: shown");
    assert_eq!(extract_chat_messages(log).len(), 0);
}

#[test]
fn unclosed_name_bracket_is_dropped() {
    let line = InfoLine {
        time: "19:00:00".to_owned(),
        content: "[CHAT] <EDDIE holy fuck youre a pixel".to_owned(),
    };
    assert!(info_line_to_chat_message(line).is_none());
}

#[test]
fn payload_without_chat_prefix_is_dropped() {
    let line = InfoLine {
        time: "19:00:00".to_owned(),
        content: "Loaded 7 advancements".to_owned(),
    };
    assert!(info_line_to_chat_message(line).is_none());
}

#[test]
fn empty_log_gives_empty_output() {
    assert_eq!(extract_info_lines(String::new()).len(), 0);
    assert_eq!(extract_chat_messages(String::new()).len(), 0);
}

#[test]
fn empty_message_body_is_kept() {
    let messages = extract_chat_messages("[1] [Render thread/INFO]: [CHAT] <name>".to_owned());
    assert_eq!(messages.len(), 1);
    assert_eq!(messages[0].message, "");
    match &messages[0].source {
        ChatMessageSource::Named(name) => assert_eq!(name, "name"),
        _ => panic!("expected a named source"),
    }
}

#[test]
fn leading_whitespace_trimmed_trailing_kept() {
    let line = InfoLine {
        time: "t".to_owned(),
        content: "[CHAT] <N>   hi  there  ".to_owned(),
    };
    let message = info_line_to_chat_message(line).expect("should classify");
    assert_eq!(message.message, "hi  there  ");
}

#[test]
fn order_is_preserved() {
    let log = "\
[1] [Render thread/INFO]: [CHAT] <a> first
[2] [Render thread/WARN]: noise
[3] [Render thread/INFO]: [CHAT] * second
[4] [Render thread/INFO]: not chat
[5] [Render thread/INFO]: [System] [CHAT] third"
        .to_owned();
    let messages = extract_chat_messages(log);
    assert_eq!(messages.len(), 3);
    assert_eq!(messages[0].message, "first");
    assert_eq!(messages[0].time, "1");
    assert_eq!(messages[1].message, "second");
    assert_eq!(messages[1].time, "3");
    assert_eq!(messages[2].message, "third");
    assert_eq!(messages[2].time, "5");
}

#[test]
fn timestamp_passes_through_verbatim() {
    let lines =
        extract_info_lines("[weird [time] [Render thread/INFO]: [CHAT] * x".to_owned());
    assert_eq!(lines.len(), 1);
    assert_eq!(lines[0].time, "weird [time");
    let messages =
        extract_chat_messages("[weird [time] [Render thread/INFO]: [CHAT] * x".to_owned());
    assert_eq!(messages.len(), 1);
    assert_eq!(messages[0].time, "weird [time");
}

#[test]
fn timestamp_capture_stops_at_first_marker() {
    let log = "[t] [Render thread/INFO]: x ] [Render thread/INFO]: y".to_owned();
    let lines = extract_info_lines(log);
    assert_eq!(lines.len(), 1);
    assert_eq!(lines[0].time, "t");
    assert_eq!(lines[0].content, "x ] [Render thread/INFO]: y");
}

#[test]
fn marker_without_preceding_bracket_is_excluded() {
    let lines = extract_info_lines("x] [Render thread/INFO]: y".to_owned());
    assert_eq!(lines.len(), 0);
}

#[test]
fn system_prefix_wins_over_chat_prefix() {
    let line = InfoLine {
        time: "t".to_owned(),
        content: "[System] [CHAT] [Debug]: Hitboxes: shown".to_owned(),
    };
    let message = info_line_to_chat_message(line).expect("should classify");
    assert!(matches!(message.source, ChatMessageSource::System));
    assert_eq!(message.message, "[Debug]: Hitboxes: shown");
}

#[test]
fn settings_carries_name_filters() {
    let settings = Settings {
        included_names: Rc::from("Abigail"),
        excluded_names: Rc::from("EDDIE"),
    };
    assert_eq!(&*settings.included_names, "Abigail");
    assert_eq!(&*settings.excluded_names, "EDDIE");
}

#[test]
fn unicode_whitespace_is_trimmed() {
    let line = InfoLine {
        time: "t".to_owned(),
        content: "[CHAT] <N>\u{00A0}\t hi".to_owned(),
    };
    let message = info_line_to_chat_message(line).expect("should classify");
    assert_eq!(message.message, "hi");
}

#[test]
fn name_ends_at_first_closing_bracket() {
    let line = InfoLine {
        time: "t".to_owned(),
        content: "[CHAT] <a>b>c".to_owned(),
    };
    let message = info_line_to_chat_message(line).expect("should classify");
    match &message.source {
        ChatMessageSource::Named(name) => assert_eq!(name, "a"),
        _ => panic!("expected a named source"),
    }
    assert_eq!(message.message, "b>c");
}
