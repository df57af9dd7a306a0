//! Sound.

use mayos::audio::ac97::{is_device, ring, Ac97};
use mayos::audio::sounds::{click, render, startup, Note, TABLE};
use mayos::audio::wav::{decode, encode};
use mayos::audio::{
    audio_turn, device_name, latency_frames, open_stream, play_system, set_volume, system_sound, Mixer, SystemSound,
    MAX_VOICES, SAMPLES,
};
use mayos::drivers::io::Io;

fn sine() -> Vec<i16> {
    (0..TABLE).map(|i| ((i as f64 / TABLE as f64 * std::f64::consts::TAU).sin() * 32767.0).round() as i16).collect()
}

fn wav(channels: u16, rate: u32, bits: u16, data: &[u8]) -> Vec<u8> {
    let mut b = b"RIFF\0\0\0\0WAVEfmt ".to_vec();
    b.extend(16u32.to_le_bytes());
    b.extend(1u16.to_le_bytes());
    b.extend(channels.to_le_bytes());
    b.extend(rate.to_le_bytes());
    b.extend((rate * channels as u32 * bits as u32 / 8).to_le_bytes());
    b.extend((channels * bits / 8).to_le_bytes());
    b.extend(bits.to_le_bytes());
    b.extend(b"data");
    b.extend((data.len() as u32).to_le_bytes());
    b.extend(data);
    b
}

#[test]
fn wav_files_come_back() {
    let samples = [0i16, 1, -1, 32767, -32768, 5];
    let (info, back) = decode(&encode(&samples)).unwrap();
    assert_eq!((info.channels, info.rate, info.bits), (2, 48000, 16));
    assert_eq!(back, samples);
}

#[test]
fn mono_and_eight_bits_are_widened() {
    let (_, s) = decode(&wav(1, 48000, 8, &[128, 255, 0])).unwrap();
    assert_eq!(s, [0, 0, 127 * 256, 127 * 256, -32768, -32768]);
}

#[test]
fn other_rates_are_resampled_between_neighbours() {
    let data: Vec<u8> = [0i16, 1000].iter().flat_map(|v| v.to_le_bytes()).collect();
    let (_, s) = decode(&wav(1, 24000, 16, &data)).unwrap();
    assert_eq!(s.len(), 8);
    assert_eq!([s[0], s[2], s[4], s[6]], [0, 500, 1000, 1000]);
}

#[test]
fn broken_files_are_refused() {
    assert_eq!(decode(b"RIFX").unwrap_err(), "not a WAV file");
    assert!(decode(&wav(3, 48000, 16, &[])).is_err());
    assert!(decode(b"RIFF\0\0\0\0WAVE").is_err());
}

#[test]
fn a_mixer_plays_and_stops() {
    let mut m = Mixer::new();
    let a = m.play(vec![100; 10]);
    assert!(m.is_playing(a));
    let out = m.fill();
    assert_eq!(out.len(), SAMPLES);
    assert_eq!(out[0], 100);
    assert_eq!(out[10], 0);
    assert!(!m.is_playing(a));
    let b = m.play(vec![1; 100_000]);
    assert_ne!(a, b);
    m.stop(b);
    assert!(!m.is_playing(b));
    assert!(m.fill().iter().all(|&s| s == 0));
}

#[test]
fn voices_are_added_up_and_cut_off() {
    let mut m = Mixer::new();
    m.play(vec![20000; SAMPLES]);
    m.play(vec![20000; SAMPLES]);
    assert_eq!(m.fill()[0], 32767);
    let mut m = Mixer::new();
    for _ in 0..MAX_VOICES + 5 {
        m.play(vec![1; SAMPLES]);
    }
    assert_eq!(m.fill()[0], MAX_VOICES as i16);
}

#[test]
fn streams_wait_while_they_are_paused() {
    let mut s = open_stream();
    s.push(&[5; 4096]);
    assert_eq!(s.queued(), 2048);
    s.set_paused(true);
    let mut m = Mixer::new();
    m.streams.push(s);
    assert!(m.fill().iter().all(|&v| v == 0));
    assert_eq!(m.streams[0].played(), 0);
    m.streams[0].set_paused(false);
    m.streams[0].set_volume(128);
    assert_eq!(m.fill()[0], 2);
    assert_eq!(m.streams[0].played(), 1024);
}

#[test]
fn closed_streams_go() {
    let mut s = open_stream();
    s.close();
    let mut m = Mixer::new();
    m.streams.push(s);
    m.fill();
    assert!(m.streams.is_empty());
}

#[test]
fn notes_are_panned() {
    let n = Note { freq: 440, start_ms: 0, len_ms: 100, amp: 500, pan: -100 };
    let v = render(&[n], &sine());
    assert!(v.iter().step_by(2).any(|&s| s != 0));
    assert!(v.iter().skip(1).step_by(2).all(|&s| s == 0));
    assert!(startup(&sine()).len() > click(&sine()).len());
}

#[test]
fn the_sound_thread_fills_ahead() {
    let t = audio_turn(0, true, 4, true, 100, 4);
    assert_eq!((t.fill, t.stop, t.restart), (4, false, None));
    let t = audio_turn(0, true, 8, true, 100, 4);
    assert_eq!(t.fill, 0);
    assert_eq!(latency_frames(), 4 * 1024);
}

#[test]
fn system_sounds_can_be_switched_off() {
    let t = sine();
    let mut m = Some(Mixer::new());
    assert_eq!(play_system(&mut m, SystemSound::Click, false, &t), None);
    assert!(m.as_ref().unwrap().voices.is_empty());
    let first = play_system(&mut m, SystemSound::Click, true, &t);
    let second = play_system(&mut m, SystemSound::Test, false, &t);
    assert!(first.is_some() && second.is_some() && first != second);
    assert_eq!(m.as_ref().unwrap().voices.len(), 2);
    let mut none = None;
    assert_eq!(play_system(&mut none, SystemSound::Test, true, &t), None);
    assert_eq!(set_volume(150, true).percent, 100);
    assert_eq!(device_name(&None), "No sound card found");
    assert_eq!(device_name(&Some(String::from("AC97"))), "AC97");
}

#[test]
fn every_system_sound_has_its_own_tones() {
    let t = sine();
    assert_eq!(system_sound(SystemSound::Startup, &t), startup(&t));
    assert_eq!(system_sound(SystemSound::Click, &t), click(&t));
    let all = [SystemSound::Startup, SystemSound::Notify, SystemSound::Error, SystemSound::Click, SystemSound::Test];
    for (i, a) in all.iter().enumerate() {
        for b in &all[i + 1..] {
            assert_ne!(system_sound(*a, &t), system_sound(*b, &t));
        }
    }
}

#[test]
fn a_stopped_sound_leaves_the_others() {
    let mut m = Mixer::new();
    let ids: Vec<u64> = (0..3).map(|_| m.play(vec![5; 5000])).collect();
    m.stop(ids[1]);
    assert_eq!(m.voices.iter().map(|v| v.id).collect::<Vec<u64>>(), [ids[0], ids[2]]);
}

#[test]
fn the_sound_card_is_set_up() {
    assert!(is_device(0x8086, 0x2415));
    assert!(!is_device(0x8086, 0x1234));
    let mut a = Ac97::new(0xc001, 0xc401).unwrap();
    assert_eq!((a.nam, a.nabm), (0xc000, 0xc400));
    assert!(Ac97::new(1, 0xc401).is_none());
    assert_eq!(ring(0x10000).len(), 32);
    assert_eq!(ring(0x10000)[1].address, 0x10000 + 4096);
    assert_eq!(a.set_last_valid(7), Io::Out8(0xc415, 7));
    assert_eq!(a.last_valid(), 7);
    assert!(matches!(a.set_volume(100, true), Io::Out16(_, v) if v & 0x8000 != 0));
}
