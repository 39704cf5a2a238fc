use sf::clipboard::{copy_to_clipboard, Attempt, CopyAction};

fn tried(goes: [Attempt; 3]) -> (bool, Vec<String>) {
    let mut log: Vec<String> = Vec::new();
    let mut outcomes: Vec<Attempt> = Vec::new();
    loop {
        match copy_to_clipboard("hi", &outcomes, false) {
            CopyAction::Try { tool, input } => {
                log.push(format!("{} {} <{}", tool.command, tool.args.join(" "), input));
                outcomes.push(goes[outcomes.len()]);
            }
            CopyAction::Done(copied) => return (copied, log),
        }
    }
}

#[test]
fn the_tools_are_tried_in_order() {
    let (copied, log) = tried([Attempt::NotStarted, Attempt::WriteFailed, Attempt::Written]);
    assert!(copied);
    assert_eq!(
        log,
        vec!["wl-copy  <hi", "xclip -selection clipboard <hi", "xsel --clipboard --input <hi"]
    );
    let (copied, log) = tried([Attempt::WriteFailed, Attempt::NotStarted, Attempt::Written]);
    assert!(copied);
    assert_eq!(log.len(), 3);
}

#[test]
fn the_first_success_ends_the_search() {
    let (copied, log) = tried([Attempt::Written, Attempt::Written, Attempt::Written]);
    assert!(copied);
    assert_eq!(log, vec!["wl-copy  <hi"]);
    let (copied, log) = tried([Attempt::NotStarted, Attempt::NoInput, Attempt::Written]);
    assert!(copied);
    assert_eq!(log, vec!["wl-copy  <hi", "xclip -selection clipboard <hi"]);
}

#[test]
fn without_a_tool_nothing_is_copied() {
    let (copied, log) = tried([Attempt::NotStarted, Attempt::NotStarted, Attempt::WriteFailed]);
    assert!(!copied);
    assert_eq!(log.len(), 3);
}

#[test]
fn every_way_ends_with_the_first_success() {
    let ways = [Attempt::NotStarted, Attempt::NoInput, Attempt::WriteFailed, Attempt::Written];
    for a in ways {
        for b in ways {
            for c in ways {
                let good: Vec<bool> =
                    [a, b, c].iter().map(|w| matches!(w, Attempt::NoInput | Attempt::Written)).collect();
                let (copied, log) = tried([a, b, c]);
                assert_eq!(copied, good.contains(&true));
                assert_eq!(log.len(), good.iter().position(|g| *g).map_or(3, |i| i + 1));
            }
        }
    }
}

#[test]
fn windows_has_a_tool_of_its_own() {
    match copy_to_clipboard("文本", &[], true) {
        CopyAction::Try { tool, input } => {
            assert_eq!(tool.command, "powershell");
            assert_eq!(tool.args.len(), 3);
            assert_eq!(tool.args[0], "-NoProfile");
            assert_eq!(tool.args[1], "-Command");
            assert!(tool.args[2].contains("UTF8") && tool.args[2].contains("Set-Clipboard"));
            assert_eq!(input, "文本");
        }
        CopyAction::Done(_) => panic!("nothing was tried"),
    }
    assert!(matches!(copy_to_clipboard("a", &[Attempt::Written], true), CopyAction::Done(true)));
    assert!(matches!(copy_to_clipboard("a", &[Attempt::NotStarted], true), CopyAction::Done(false)));
}
