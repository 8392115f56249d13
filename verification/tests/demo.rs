//! The walk through the interface.

use rustydlp::demo::{Demo, DemoAction, DemoBody};
use rustydlp::session::SidebarTab;

#[test]
fn the_walk_starts_at_home_with_its_notice_up() {
    let screen = Demo::new().render();
    assert!(screen.notice && !screen.settings);
    assert_eq!(screen.tabs.selected, 0);
    let rows = match screen.body {
        DemoBody::Home(rows) => rows,
        other => panic!("{other:?}"),
    };
    let titles: Vec<&str> = rows.iter().map(|r| r.job.title).collect();
    assert_eq!(
        titles,
        [
            "Conference talk — opening keynote",
            "Weekly livestream archive, part 3",
            "Album, full playlist rip",
        ]
    );
    assert_eq!(rows[2].job.subtitle, "12 videos");
    assert_eq!(rows[1].id, "job-1");
    assert!(rows.iter().all(|r| !r.active));
}

#[test]
fn a_click_on_a_row_selects_it_alone() {
    let mut d = Demo::new();
    d.act(DemoAction::Select(1));
    match d.render().body {
        DemoBody::Home(rows) => {
            let active: Vec<bool> = rows.iter().map(|r| r.active).collect();
            assert_eq!(active, [false, true, false]);
            assert_eq!(rows[2].action, DemoAction::Select(2));
        }
        other => panic!("{other:?}"),
    }
}

#[test]
fn a_cancelled_job_stays_cancelled() {
    let mut d = Demo::new();
    d.act(DemoAction::SwitchTab(1));
    assert_eq!(d.tab, SidebarTab::InProgress);
    assert_eq!(d.render().body, DemoBody::Running);
    d.act(DemoAction::Cancel);
    assert_eq!(d.render().body, DemoBody::Cancelled);
    d.act(DemoAction::SwitchTab(0));
    d.act(DemoAction::SwitchTab(1));
    assert_eq!(d.render().body, DemoBody::Cancelled);
}

#[test]
fn the_settings_cover_the_tabs_until_they_are_left() {
    let mut d = Demo::new();
    d.act(DemoAction::ToggleSettings);
    let screen = d.render();
    assert!(screen.settings);
    assert_eq!(
        screen.body,
        DemoBody::Settings {
            autoplay: true,
            action: DemoAction::SetAutoplay(false),
        }
    );
    d.act(DemoAction::SetAutoplay(false));
    d.act(DemoAction::CloseSettings);
    assert!(!d.render().settings && !d.autoplay_previews);
    d.act(DemoAction::DismissNotice);
    assert!(!d.render().notice);
}
