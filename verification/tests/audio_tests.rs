use taurin::audio::{
    audio_file_names, fade_target, missing_audio_message, pan_percent, pitch_percent,
    play_target, playable_name, stop_targets, volume_percent, PersistentAudioKind, PlayTarget,
    StopTarget,
};
use taurin::channels::AudioChannels;

#[test]
fn folders_and_looping() {
    assert_eq!(PersistentAudioKind::Bgm.folder(), "bgm");
    assert_eq!(PersistentAudioKind::Bgs.folder(), "bgs");
    assert_eq!(PersistentAudioKind::Me.folder(), "me");
    assert!(PersistentAudioKind::Bgm.loops());
    assert!(PersistentAudioKind::Bgs.loops());
    assert!(!PersistentAudioKind::Me.loops());
}

#[test]
fn play_targets() {
    assert_eq!(play_target("bgm"), Ok(PlayTarget::Persistent(PersistentAudioKind::Bgm)));
    assert_eq!(play_target("bgs"), Ok(PlayTarget::Persistent(PersistentAudioKind::Bgs)));
    assert_eq!(play_target("me"), Ok(PlayTarget::Persistent(PersistentAudioKind::Me)));
    assert_eq!(play_target("se"), Ok(PlayTarget::SoundEffect));
    assert_eq!(play_target("voice"), Err("unsupported RPG Maker audio kind: voice".to_string()));
    assert_eq!(play_target("BGM"), Err("unsupported RPG Maker audio kind: BGM".to_string()));
    assert_eq!(play_target("all"), Err("unsupported RPG Maker audio kind: all".to_string()));
}

#[test]
fn stop_targets_of_each_kind() {
    assert_eq!(stop_targets("bgm"), Ok(vec![StopTarget::Persistent(PersistentAudioKind::Bgm)]));
    assert_eq!(stop_targets("bgs"), Ok(vec![StopTarget::Persistent(PersistentAudioKind::Bgs)]));
    assert_eq!(stop_targets("me"), Ok(vec![StopTarget::Persistent(PersistentAudioKind::Me)]));
    assert_eq!(stop_targets("se"), Ok(vec![StopTarget::SoundEffects]));
    assert_eq!(stop_targets(""), Err("unsupported RPG Maker audio kind: ".to_string()));
}

#[test]
fn stop_all_stops_every_channel() {
    assert_eq!(
        stop_targets("all"),
        Ok(vec![
            StopTarget::Persistent(PersistentAudioKind::Me),
            StopTarget::Persistent(PersistentAudioKind::Bgm),
            StopTarget::Persistent(PersistentAudioKind::Bgs),
            StopTarget::SoundEffects,
        ])
    );
}

#[test]
fn fade_targets() {
    assert_eq!(fade_target("bgm"), Ok(PersistentAudioKind::Bgm));
    assert_eq!(fade_target("bgs"), Ok(PersistentAudioKind::Bgs));
    assert_eq!(fade_target("me"), Ok(PersistentAudioKind::Me));
    assert_eq!(fade_target("se"), Err("unsupported RPG Maker fade target: se".to_string()));
    assert_eq!(fade_target("all"), Err("unsupported RPG Maker fade target: all".to_string()));
}

#[test]
fn playable_names() {
    assert_eq!(playable_name(Some("Battle1")), Some("Battle1"));
    assert_eq!(playable_name(Some("")), None);
    assert_eq!(playable_name(None), None);
    assert_eq!(playable_name(Some(" ")), Some(" "));
}

#[test]
fn audio_files_and_missing_message() {
    assert_eq!(audio_file_names("Battle1"), vec!["Battle1.ogg".to_string(), "Battle1.m4a".to_string()]);
    assert_eq!(
        missing_audio_message("bgm", "Battle1"),
        "missing RPG Maker audio file: audio/bgm/Battle1.ogg or .m4a"
    );
}

#[test]
fn percentages_are_bounded() {
    assert_eq!(volume_percent(None), 100);
    assert_eq!(volume_percent(Some(90)), 90);
    assert_eq!(volume_percent(Some(150)), 100);
    assert_eq!(volume_percent(Some(-5)), 0);
    assert_eq!(pitch_percent(None), 100);
    assert_eq!(pitch_percent(Some(150)), 150);
    assert_eq!(pitch_percent(Some(0)), 1);
    assert_eq!(pitch_percent(Some(i32::MIN)), 1);
    assert_eq!(pan_percent(None), 0);
    assert_eq!(pan_percent(Some(-30)), -30);
    assert_eq!(pan_percent(Some(-300)), -100);
    assert_eq!(pan_percent(Some(i32::MAX)), 100);
}

#[test]
fn channels_hold_one_handle_each() {
    let mut channels: AudioChannels<u32> = AudioChannels::new();
    assert_eq!(channels.take(PersistentAudioKind::Bgm), None);
    channels.put(PersistentAudioKind::Bgm, 1);
    channels.put(PersistentAudioKind::Bgs, 2);
    channels.put(PersistentAudioKind::Bgm, 3);
    assert_eq!(channels.take(PersistentAudioKind::Me), None);
    assert_eq!(channels.take(PersistentAudioKind::Bgm), Some(3));
    assert_eq!(channels.take(PersistentAudioKind::Bgm), None);
    assert_eq!(channels.take(PersistentAudioKind::Bgs), Some(2));
}

#[test]
fn sound_effects_are_kept_in_order() {
    let mut channels: AudioChannels<u32> = AudioChannels::new();
    channels.push_sound_effect(10);
    channels.push_sound_effect(11);
    channels.push_sound_effect(12);
    channels.put(PersistentAudioKind::Me, 7);
    assert_eq!(channels.sound_effects(), &vec![10, 11, 12]);
    channels.retain_sound_effects(&vec![true, false, true]);
    assert_eq!(channels.sound_effects(), &vec![10, 12]);
    assert_eq!(channels.drain_sound_effects(), vec![10, 12]);
    assert!(channels.sound_effects().is_empty());
    assert_eq!(channels.take(PersistentAudioKind::Me), Some(7));
}

#[test]
fn stopping_all_takes_every_handle_once() {
    let mut channels: AudioChannels<u32> = AudioChannels::new();
    channels.put(PersistentAudioKind::Bgm, 1);
    channels.put(PersistentAudioKind::Me, 3);
    channels.push_sound_effect(10);
    channels.push_sound_effect(11);
    let all = stop_targets("all").unwrap();
    assert_eq!(channels.take_for_stop(&all), vec![3, 1, 10, 11]);
    assert_eq!(channels.take_for_stop(&all), Vec::<u32>::new());
    assert!(channels.sound_effects().is_empty());
    assert_eq!(channels.take(PersistentAudioKind::Bgm), None);
}

#[test]
fn stopping_one_channel_leaves_the_others() {
    let mut channels: AudioChannels<u32> = AudioChannels::new();
    channels.put(PersistentAudioKind::Bgm, 1);
    channels.put(PersistentAudioKind::Bgs, 2);
    channels.push_sound_effect(10);
    assert_eq!(channels.take_for_stop(&stop_targets("bgm").unwrap()), vec![1]);
    assert_eq!(channels.take_for_stop(&stop_targets("se").unwrap()), vec![10]);
    assert_eq!(channels.take(PersistentAudioKind::Bgs), Some(2));
}
