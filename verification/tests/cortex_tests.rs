use fixed::types::I16F16;
use qres_core::cortex::{LinearNeuron, Regime, SwarmNeuron, GENE_LEN, REFRACTORY_PERIOD_TICKS};

#[test]
fn test_linear_neuron_creation() {
    let neuron = LinearNeuron::new(64);
    assert_eq!(neuron.history_len(), 64);
    assert_eq!(neuron.refractory_remaining(), 0);
}

#[test]
fn test_predict() {
    let neuron = LinearNeuron::new(64);
    let history = [100u8; 64];
    let prediction = neuron.predict(&history);
    // bias 128 plus 100 times weights summing to exactly 1.0
    assert_eq!(prediction, 228);
}

#[test]
fn test_gene_export_import() {
    let mut neuron1 = LinearNeuron::new(64);
    neuron1.set_learning_rate(I16F16::from_num(0.05).to_bits());

    let gene = neuron1.export_gene();
    assert_eq!(gene.len(), 48);

    let mut neuron2 = LinearNeuron::new(64);
    assert!(neuron2.install_gene(&gene));
    assert_eq!(neuron2.learning_rate_bits(), I16F16::from_num(0.05).to_bits());
}

#[test]
fn test_refractory_period() {
    let mut neuron = LinearNeuron::new(64);

    let spike1 = neuron.check_surprise(200, 100, Regime::Storm, 0);
    assert!(spike1.is_some());
    assert_eq!(neuron.refractory_remaining(), REFRACTORY_PERIOD_TICKS);

    let spike2 = neuron.check_surprise(200, 100, Regime::Storm, 1);
    assert!(spike2.is_none());

    for _ in 0..REFRACTORY_PERIOD_TICKS {
        neuron.tick();
    }
    assert_eq!(neuron.refractory_remaining(), 0);
}

#[test]
fn gene_of_wrong_length_is_refused_without_change() {
    let mut neuron = LinearNeuron::new(16);
    let before = neuron.export_gene();
    assert!(!neuron.install_gene(&[1u8; GENE_LEN - 1]));
    assert_eq!(neuron.export_gene(), before);
}

#[test]
fn exported_gene_layout() {
    let neuron = LinearNeuron::new(8);
    let gene = neuron.export_gene();
    assert_eq!(&gene[..8], &[1, 2, 4, 8, 0, 0, 0, 0]);
    assert_eq!(&gene[8..12], &32768i32.to_le_bytes());
    assert_eq!(&gene[40..44], &8388608i32.to_le_bytes());
    assert_eq!(&gene[44..48], &655i32.to_le_bytes());
}
