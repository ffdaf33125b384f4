use chip8_core::emu::Emu;
use chip8_core::save::load_save;
use chip8_core::save::make_save;
use chip8_core::save::SaveState;
use chip8_core::themes::ThemeManager;

#[test]
fn savestate_roundtrip_restores_core_state() {
    let mut e = Emu::new();
    e.load(&[0x63, 0xAB, 0xD0, 0x11]).unwrap();
    e.tick().unwrap();
    let save = make_save(&e);

    // Run on and scramble the state.
    e.tick().unwrap();
    e.registers[3] = 0;
    e.delay_timer = 55;
    e.keypress(4, true);
    e.is_paused = true;

    load_save(&save, &mut e);
    assert_eq!(e.programm_counter, 0x202);
    assert_eq!(e.registers[3], 0xAB);
    assert_eq!(e.delay_timer, 0);
    assert!(e.get_display().iter().all(|&p| !p));
    // The keypad and the pause flag are not part of a snapshot.
    assert!(e.pressed_keys[4]);
    assert!(e.is_paused);
}

#[test]
fn default_savestate_is_all_zero() {
    let mut e = Emu::new();
    load_save(&SaveState::default(), &mut e);
    assert_eq!(e.programm_counter, 0);
    assert_eq!(e.i_register, 0);
    assert_eq!(e.ram[0], 0);
    assert!(e.registers.iter().all(|&v| v == 0));
}

#[test]
fn theme_manager_starts_with_placeholder() {
    let tm = ThemeManager::new();
    assert_eq!(tm.num_themes, 1);
    assert_eq!(tm.theme_index, 0);
    assert_eq!(tm.themes.len(), 1);
    assert_eq!(tm.themes[0].bg, "");
}

#[test]
fn parse_themes_keeps_triple_order() {
    let mut tm = ThemeManager::new();
    let raw = vec![
        vec!["#000000".to_string(), "#00FF00".to_string(), "#FFFFFF".to_string()],
        vec!["#101010".to_string(), "#FF0000".to_string(), "#EEEEEE".to_string()],
    ];
    tm.parse_themes(&raw);
    assert_eq!(tm.num_themes, 2);
    assert_eq!(tm.theme_index, 0);
    assert_eq!(tm.themes[0].bg, "#000000");
    assert_eq!(tm.themes[0].fg, "#00FF00");
    assert_eq!(tm.themes[0].text, "#FFFFFF");
    assert_eq!(tm.themes[1].bg, "#101010");
    assert_eq!(tm.themes[1].fg, "#FF0000");
    assert_eq!(tm.themes[1].text, "#EEEEEE");
}

#[test]
fn next_theme_wraps_around() {
    let mut tm = ThemeManager::new();
    let raw = vec![
        vec!["a".to_string(), "b".to_string(), "c".to_string()],
        vec!["d".to_string(), "e".to_string(), "f".to_string()],
    ];
    tm.parse_themes(&raw);
    tm.next_theme();
    assert_eq!(tm.theme_index, 1);
    tm.next_theme();
    assert_eq!(tm.theme_index, 0);
}
