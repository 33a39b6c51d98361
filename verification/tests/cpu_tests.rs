use chip8::cpu::Cpu;

#[test]
fn loads_fonts_top_of_ram() {
    let mut cpu = Cpu::new();
    cpu.load_fonts();

    let zero: Vec<u8> = (0..5).map(|k| cpu.ram_at(k)).collect();
    let f: Vec<u8> = (75..80).map(|k| cpu.ram_at(k)).collect();

    assert_eq!(zero, [0xF0, 0x90, 0x90, 0x90, 0xF0]);
    assert_eq!(f, [0xF0, 0x80, 0xF0, 0x80, 0x80]);
}
