use led_platform::profile::{
    Calibration, Capabilities, ColorFormat, HardwareProfile, Identity, Limits, OutputInterface,
    Power, Protocol, RgbOrder, Transport, SCHEMA_VERSION,
};
use led_platform::registry::HardwareRegistry;
use led_platform::reparticao::{repartir, repartir_portas, Fatia, RepartirError, UnidadeVazia};

fn node(ports: u16, max_pixels: u32, ppu: u16) -> HardwareProfile {
    HardwareProfile {
        schema_version: SCHEMA_VERSION,
        identity: Identity {
            vendor: "Falcon".into(),
            model: "F16V3".into(),
            firmware: "stock".into(),
            firmware_version: "1".into(),
            serial: None,
        },
        capabilities: Capabilities {
            protocol: Protocol::Sacn,
            output_interface: OutputInterface::Ethernet,
            color: ColorFormat::Rgb(RgbOrder::Rgb),
            ports,
            supports_discovery: false,
            supports_metrics: false,
        },
        limits: Limits { pixels_per_universe: ppu, max_pixels, refresh_hz: 40 },
        transport: Transport { mtu_bytes: 1500, heartbeat_ms: 800 },
        power: Power { voltage_v: 12.0f32.to_bits(), max_current_a: 30.0f32.to_bits() },
        calibration: Calibration { gamma: 1.0f32.to_bits(), brightness: 1.0f32.to_bits() },
    }
}

fn perfil(nome: &str) -> HardwareProfile {
    HardwareRegistry::with_builtin().profile(nome).expect("preset embutido")
}

fn falcon() -> HardwareProfile {
    perfil("falcon-f16v3-sacn")
}

#[test]
fn repartir_por_nos_e_depois_por_portas_e_uma_so_regra() {
    let (cap_porta, portas, nos) = (1_024usize, 16usize, 3usize);
    let tecto_no = cap_porta * portas;
    let total = tecto_no * 2 + 5_000;

    let mut aninhado = Vec::new();
    for no in repartir(total, tecto_no, nos, UnidadeVazia::Aceita).unwrap() {
        for p in repartir(no.pixel_count, cap_porta, portas, UnidadeVazia::Aceita).unwrap() {
            aninhado.push(Fatia {
                pixel_offset: no.pixel_offset + p.pixel_offset,
                pixel_count: p.pixel_count,
            });
        }
    }
    let plano = repartir(total, cap_porta, nos * portas, UnidadeVazia::Aceita).unwrap();
    assert_eq!(aninhado, plano);
}

#[test]
fn falcon_reparte_1024_por_porta_e_arranca_de_7_em_7_universos() {
    let p = perfil("falcon-f16v3-sacn");
    assert_eq!(p.capabilities.ports, 16);
    assert_eq!(p.limits.max_pixels, 16_384);

    let fatias = repartir_portas(&p, 16_384, 0).unwrap();
    assert_eq!(fatias.len(), 16);
    assert!(fatias.iter().all(|f| f.pixel_count == 1_024));
    assert_eq!(fatias[0].universe_start, 0);
    assert_eq!(fatias[1].universe_start, 7);
    assert_eq!(fatias[15].universe_start, 105);
}

#[test]
fn advatek_reparte_1020_por_porta_e_arranca_de_6_em_6_universos() {
    let p = perfil("advatek-pixlite16-sacn");
    assert_eq!(p.capabilities.ports, 16);
    assert_eq!(p.limits.max_pixels, 16_320);

    let fatias = repartir_portas(&p, 16_320, 0).unwrap();
    assert!(fatias.iter().all(|f| f.pixel_count == 1_020));
    assert_eq!(fatias[1].universe_start, 6);
    assert_eq!(fatias[15].universe_start, 90);
}

#[test]
fn duas_portas_nunca_partilham_universo() {
    let p = falcon();
    let ppu = p.limits.pixels_per_universe as usize;
    let fatias = repartir_portas(&p, 16_384, 0).unwrap();
    for par in fatias.windows(2) {
        let (a, b) = (par[0], par[1]);
        let ultimo_de_a = a.universe_start as usize + a.pixel_count.div_ceil(ppu).saturating_sub(1);
        assert!((b.universe_start as usize) > ultimo_de_a);
    }
}

#[test]
fn porta_sem_pixeis_e_valida_e_o_show_real_do_rig_compila() {
    let fatias = repartir_portas(&falcon(), 6_200, 0).unwrap();
    assert_eq!(fatias.len(), 16);
    assert_eq!(fatias[5].pixel_count, 1_024);
    assert_eq!(fatias[6].pixel_count, 56);
    assert_eq!(fatias.iter().filter(|f| f.pixel_count == 0).count(), 9);
    assert_eq!(fatias.iter().map(|f| f.pixel_count).sum::<usize>(), 6_200);
    assert_eq!(fatias[15].pixel_offset, 15 * 1_024);
}

#[test]
fn a_politica_do_zero_e_dado_e_as_duas_regras_nao_se_confundem() {
    assert_eq!(
        repartir(1_000, 1_000, 3, UnidadeVazia::Recusa),
        Err(RepartirError::UnidadeSemPixeis {
            indice: 1,
            total: 1_000,
            tecto: 1_000,
            unidades: 3,
            cabem_em: 1,
        })
    );
    let aceite = repartir(1_000, 1_000, 3, UnidadeVazia::Aceita).unwrap();
    assert_eq!(aceite.len(), 3);
    assert_eq!(aceite[1].pixel_count, 0);
}

#[test]
fn each_error_of_the_partition_comes_with_its_numbers() {
    assert_eq!(repartir(10, 5, 0, UnidadeVazia::Aceita), Err(RepartirError::SemUnidades));
    assert_eq!(repartir(10, 0, 2, UnidadeVazia::Aceita), Err(RepartirError::TectoZero));
    assert_eq!(
        repartir(11, 5, 2, UnidadeVazia::Aceita),
        Err(RepartirError::NaoCabe { total: 11, tecto: 5, unidades: 2, capacidade: 10 })
    );
    assert_eq!(
        repartir(1, usize::MAX, 2, UnidadeVazia::Recusa),
        Err(RepartirError::UnidadeSemPixeis {
            indice: 1,
            total: 1,
            tecto: usize::MAX,
            unidades: 2,
            cabem_em: 1,
        })
    );
    assert_eq!(
        repartir(usize::MAX, usize::MAX / 2 + 1, 2, UnidadeVazia::Recusa).unwrap().len(),
        2
    );
}

#[test]
fn the_remainder_lands_in_the_last_unit_that_gets_any() {
    let f = repartir(2_500, 1_000, 3, UnidadeVazia::Recusa).unwrap();
    assert_eq!(
        f,
        vec![
            Fatia { pixel_offset: 0, pixel_count: 1_000 },
            Fatia { pixel_offset: 1_000, pixel_count: 1_000 },
            Fatia { pixel_offset: 2_000, pixel_count: 500 },
        ]
    );
    // Adding a unit at the end leaves the earlier slices as they were.
    let g = repartir(2_500, 1_000, 4, UnidadeVazia::Aceita).unwrap();
    assert_eq!(&g[..3], &f[..]);
    assert_eq!(g[3], Fatia { pixel_offset: 3_000, pixel_count: 0 });
    assert_eq!(repartir(0, 10, 1, UnidadeVazia::Recusa).unwrap_err(), RepartirError::UnidadeSemPixeis {
        indice: 0,
        total: 0,
        tecto: 10,
        unidades: 1,
        cabem_em: 0,
    });
}

#[test]
fn port_partition_errors() {
    assert_eq!(repartir_portas(&node(0, 100, 170), 10, 0), Err(RepartirError::SemUnidades));
    assert_eq!(repartir_portas(&node(4, 100, 0), 10, 0), Err(RepartirError::TectoZero));
    assert_eq!(repartir_portas(&node(4, 3, 170), 0, 0), Err(RepartirError::TectoZero));
    assert_eq!(
        repartir_portas(&falcon(), 16_385, 0),
        Err(RepartirError::NaoCabe { total: 16_385, tecto: 1_024, unidades: 16, capacidade: 16_384 })
    );
    // Port 1 would start at universe 65 535 + 7: out of range.
    assert_eq!(
        repartir_portas(&falcon(), 100, 65_535),
        Err(RepartirError::UniversoForaDeFaixa { porta: 1, universo: 65_542 })
    );
    let ok = repartir_portas(&node(2, 340, 170), 340, 65_534).unwrap();
    assert_eq!(ok[1].universe_start, 65_535);
}
