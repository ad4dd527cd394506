use my_torch_analyzer::activation::{function_getter, get_derivative, Activation};
use my_torch_analyzer::chess::shape::{chess_plan, INPUT_SIZE, OUTPUT_SIZE};
use my_torch_analyzer::network::divergence::Magnitude;
use my_torch_analyzer::network::divergence::Magnitude::{Finite, Infinite, Large, NotANumber};
use my_torch_analyzer::network::layer::Layer;
use my_torch_analyzer::network::network::Network;
use my_torch_analyzer::network::perceptron::Perceptron;
use my_torch_analyzer::network::plan::{he_plan, he_variance, uniform_plan, LayerPlan};
use my_torch_analyzer::number::Number;

const XOR: &str = "sigmoid 0.1 0.5 -0.5\nsigmoid -0.2 1e-3 2.\n---\nlinear 0 1 -1";

#[test]
fn activations_by_name() {
    assert_eq!(function_getter(String::from("sigmoid")), Ok(Activation::Sigmoid));
    assert_eq!(function_getter(String::from("relu")), Ok(Activation::Relu));
    assert_eq!(function_getter(String::from("tanh")), Ok(Activation::Tanh));
    assert_eq!(function_getter(String::from("linear")), Ok(Activation::Linear));
    assert_eq!(
        function_getter(String::from("Sigmoid")),
        Err(String::from("unknow function 'Sigmoid'"))
    );
    assert_eq!(function_getter(String::new()), Err(String::from("unknow function ''")));
    for activation in
        [Activation::Sigmoid, Activation::Relu, Activation::Tanh, Activation::Linear]
    {
        assert_eq!(function_getter(activation.name()), Ok(activation));
        assert_eq!(get_derivative(&activation.name()), activation);
    }
    assert_eq!(get_derivative("softmax"), Activation::Sigmoid);
}

#[test]
fn a_neuron_is_read_from_its_line() {
    let neuron = Perceptron::new(String::from(" tanh  -0.25\t1e3 .5  inf ")).unwrap();
    assert_eq!(neuron.activation, Activation::Tanh);
    assert_eq!(neuron.bias.text(), "-0.25");
    let weights: Vec<String> = neuron.weights.iter().map(|w| w.text()).collect();
    assert_eq!(weights, vec!["1e3", ".5", "inf"]);
    assert_eq!(neuron.input_width(), 3);
    assert_eq!(neuron.to_string(), "tanh -0.25 1e3 .5 inf");
}

#[test]
fn a_neuron_without_weights_keeps_the_space_after_its_bias() {
    let neuron = Perceptron::new(String::from("relu 1")).unwrap();
    assert_eq!(neuron.weights.len(), 0);
    assert_eq!(neuron.to_string(), "relu 1 ");
    let again = Perceptron::new(neuron.to_string()).unwrap();
    assert_eq!(again.to_string(), "relu 1 ");
}

#[test]
fn neuron_errors() {
    assert_eq!(Perceptron::new(String::from("  ")).err().unwrap(), "empty neuron line");
    assert_eq!(
        Perceptron::new(String::from("softmax 1 2")).err().unwrap(),
        "unknow function 'softmax'"
    );
    assert_eq!(Perceptron::new(String::from("relu")).err().unwrap(), "missing bias");
    assert_eq!(
        Perceptron::new(String::from("relu 1 2 x3 y")).err().unwrap(),
        "invalid number 'x3'"
    );
    assert_eq!(
        Perceptron::new(String::from("relu one")).err().unwrap(),
        "invalid number 'one'"
    );
}

#[test]
fn a_layer_is_read_from_its_lines() {
    let layer = Layer::new(String::from("sigmoid 0 1 2\nrelu 3 4 5")).unwrap();
    assert_eq!(layer.neurons().len(), 2);
    assert_eq!(layer.neurons[1].activation, Activation::Relu);
    assert_eq!(layer.dropout_rate.text(), "0");
    assert!(!layer.training_mode);
    assert!(layer.takes(2));
    assert!(!layer.takes(3));
    assert_eq!(layer.to_string(), "sigmoid 0 1 2\nrelu 3 4 5");
}

#[test]
fn layer_errors() {
    assert_eq!(
        Layer::new(String::from("sigmoid 0 1 2\nrelu 3 4")).err().unwrap(),
        "neuron 1 has 1 weights, expected 2"
    );
    assert_eq!(
        Layer::new(String::from("sigmoid 0 1 2\n")).err().unwrap(),
        "empty neuron line"
    );
    assert_eq!(
        Layer::new(String::from("sigmoid 0 1\nstep 0 1")).err().unwrap(),
        "unknow function 'step'"
    );
}

#[test]
fn a_network_is_read_from_its_text() {
    let network = Network::new(String::from(XOR)).unwrap();
    assert_eq!(network.get_architecture(), vec![2, 1]);
    assert_eq!(network.count_parameters(), 9);
    assert_eq!(network.checked_count_parameters(), Some(9));
    assert!(network.is_well_formed(2));
    assert!(!network.is_well_formed(3));
    assert!(network.accepts_example(2, 1));
    assert!(!network.accepts_example(2, 2));
    assert!(!network.accepts_example(1, 1));
    assert!(!Network::<f64>(Vec::new()).accepts_example(0, 0));
    assert_eq!(network.0[1].neurons[0].activation, Activation::Linear);
    assert_eq!(network.to_string(), "sigmoid 0.1 0.5 -0.5\nsigmoid -0.2 1e-3 2.\n---\nlinear 0 1 -1");
}

#[test]
fn round_trip() {
    let network = Network::new(String::from(XOR)).unwrap();
    let text = network.to_string();
    let again = Network::new(text.clone()).unwrap();
    assert_eq!(again.to_string(), text);
    assert_eq!(again.get_architecture(), network.get_architecture());
    for (layer, other) in network.0.iter().zip(again.0.iter()) {
        for (neuron, twin) in layer.neurons.iter().zip(other.neurons.iter()) {
            assert_eq!(neuron.activation, twin.activation);
            assert_eq!(neuron.bias.text(), twin.bias.text());
            assert_eq!(neuron.weights.len(), twin.weights.len());
            for (weight, same) in neuron.weights.iter().zip(twin.weights.iter()) {
                assert_eq!(
                    weight.text().parse::<f64>().unwrap(),
                    same.text().parse::<f64>().unwrap()
                );
            }
        }
    }
}

#[test]
fn round_trip_of_floats_written_by_std() {
    let values = [0.1f64, -2.5e-7, 1e21, f64::MAX, f64::MIN_POSITIVE, 1.0 / 3.0, -0.0];
    let mut line = String::from("tanh");
    for value in values {
        line.push(' ');
        line.push_str(&value.to_string());
    }
    let neuron = Perceptron::new(line.clone()).unwrap();
    assert_eq!(neuron.to_string(), line);
    assert_eq!(neuron.bias.text().parse::<f64>().unwrap(), 0.1);
    for (weight, value) in neuron.weights.iter().zip(values[1..].iter()) {
        assert_eq!(weight.text().parse::<f64>().unwrap(), *value);
    }
}

#[test]
fn network_errors() {
    assert_eq!(Network::new(String::new()).err().unwrap(), "layer 0: empty neuron line");
    assert_eq!(
        Network::new(String::from("---\nrelu 1 1")).err().unwrap(),
        "layer 0: no neuron"
    );
    assert_eq!(
        Network::new(String::from("relu 1 1\n---\n---\nrelu 1 1")).err().unwrap(),
        "layer 1: no neuron"
    );
    assert_eq!(
        Network::new(String::from("relu 1 1\n---\nrelu 1 1\nrelu 1")).err().unwrap(),
        "layer 1: neuron 1 has 0 weights, expected 1"
    );
    assert_eq!(
        Network::new(String::from("relu 1 1\n---\nrelu 1 x")).err().unwrap(),
        "layer 1: invalid number 'x'"
    );
    assert_eq!(
        Network::new(String::from("relu 1 1\nrelu 1 1\n---\nrelu 1 1 1 1")).err().unwrap(),
        "layer 1 takes 3 inputs, the layer before it gives 2"
    );
    assert_eq!(
        Network::new(String::from("relu 1 1\n --- \nrelu 1 1")).err().unwrap(),
        "layer 0: unknow function '---'"
    );
}

#[test]
fn a_layer_drops_outputs_only_in_training_mode() {
    let mut layer = Layer::new(String::from("sigmoid 0 1")).unwrap();
    assert!(!layer.drops(true));
    assert!(!layer.drops(false));
    layer.set_training_mode(true);
    assert!(layer.drops(true));
    assert!(!layer.drops(false));
}

#[test]
fn training_mode_reaches_every_layer() {
    let mut network = Network::new(String::from(XOR)).unwrap();
    network.set_training_mode(true);
    assert!(network.0.iter().all(|layer| layer.training_mode));
    assert_eq!(network.get_architecture(), vec![2, 1]);
    network.set_training_mode(false);
    assert!(network.0.iter().all(|layer| !layer.training_mode));
    network.0[0].set_training_mode(true);
    assert!(network.0[0].training_mode);
    assert!(!network.0[1].training_mode);
    network.0[0].set_dropout(Number::parse("0.4").unwrap());
    assert_eq!(network.0[0].dropout_rate.text(), "0.4");
    network.0[1].neurons_mut().pop();
    assert_eq!(network.get_architecture(), vec![2, 0]);
}

#[test]
fn shape_invariant() {
    let widths = vec![4u32, 3, 2];
    let plan = he_plan(5, &widths, Activation::Linear, 2);
    assert_eq!(
        plan,
        vec![
            LayerPlan { neurons: 4, inputs: 5, activation: Activation::Relu, dropout: Some(0) },
            LayerPlan { neurons: 3, inputs: 4, activation: Activation::Relu, dropout: Some(1) },
            LayerPlan { neurons: 2, inputs: 3, activation: Activation::Linear, dropout: None },
        ]
    );
    let network: Network<f64> = Network::filled(&plan, &vec![0.4, 0.3], 0.0);
    assert!(network.has_shape(&plan));
    assert!(network.is_well_formed(5));
    assert!(!network.is_well_formed(4));
    assert_eq!(network.get_architecture(), vec![4, 3, 2]);
    assert_eq!(network.count_parameters(), 4 * 6 + 3 * 5 + 2 * 4);
    assert_eq!(network.0[0].dropout_rate, 0.4);
    assert_eq!(network.0[1].dropout_rate, 0.3);
    assert_eq!(network.0[2].dropout_rate, 0.0);
    assert!(network.0.iter().all(|layer| !layer.training_mode));
    assert!(network.0[2].neurons.iter().all(|n| n.bias == 0.0 && n.weights == vec![0.0; 3]));
    let other = uniform_plan(5, &widths, Activation::Sigmoid);
    assert!(!network.has_shape(&other));
    assert_eq!(other[0].activation, Activation::Sigmoid);
    assert_eq!(other[2].activation, Activation::Sigmoid);
    assert_eq!(other[0].dropout, None);
    assert!(he_plan(5, &Vec::new(), Activation::Linear, 0).is_empty());
}

#[test]
fn he_variance_by_activation() {
    assert_eq!(he_variance(Activation::Relu, 833), (2, 833));
    assert_eq!(he_variance(Activation::Linear, 64), (1, 64));
    assert_eq!(he_variance(Activation::Sigmoid, 2), (1, 2));
    assert_eq!(he_variance(Activation::Tanh, 0), (1, 0));
}

fn magnitudes(weights: Vec<Magnitude>, bias: Magnitude) -> Perceptron<Magnitude> {
    Perceptron { activation: Activation::Relu, weights, bias }
}

fn layer(neurons: Vec<Perceptron<Magnitude>>) -> Layer<Magnitude> {
    Layer { neurons, dropout_rate: Magnitude::Finite, training_mode: false }
}

#[test]
fn gradient_sanity() {
    let sound = Network(vec![
        layer(vec![magnitudes(vec![Finite, Large], Finite), magnitudes(vec![Finite, Finite], Large)]),
        layer(vec![magnitudes(vec![Large, Finite], Finite)]),
    ]);
    let (large, result) = sound.check_gradients();
    assert_eq!(result, Ok(()));
    assert_eq!(large, vec![(0, 0, 1), (1, 0, 0)]);

    let mut broken = sound;
    broken.0[0].neurons[1].weights[1] = NotANumber;
    let (large, result) = broken.check_gradients();
    assert_eq!(result, Err(String::from("NaN weight at layer 0, neuron 1, weight 1")));
    assert_eq!(large, vec![(0, 0, 1)]);

    broken.0[0].neurons[1].weights[1] = Infinite;
    assert_eq!(
        broken.check_gradients().1,
        Err(String::from("Infinite weight at layer 0, neuron 1, weight 1"))
    );
    broken.0[0].neurons[0].bias = NotANumber;
    assert_eq!(broken.check_gradients().1, Err(String::from("NaN bias at layer 0, neuron 0")));
    broken.0[0].neurons[0].bias = Infinite;
    assert_eq!(
        broken.check_gradients().1,
        Err(String::from("Infinite bias at layer 0, neuron 0"))
    );
    let empty: Network<Magnitude> = Network(Vec::new());
    assert_eq!(empty.check_gradients(), (Vec::new(), Ok(())));
}

#[test]
fn the_shape_of_a_chess_network() {
    assert_eq!(INPUT_SIZE, 833);
    assert_eq!(OUTPUT_SIZE, 5);
    let plan = chess_plan(&vec![256, 128, 64], 5);
    assert_eq!(
        plan,
        vec![
            LayerPlan { neurons: 256, inputs: 833, activation: Activation::Relu, dropout: Some(0) },
            LayerPlan { neurons: 128, inputs: 256, activation: Activation::Relu, dropout: Some(1) },
            LayerPlan { neurons: 64, inputs: 128, activation: Activation::Relu, dropout: Some(2) },
            LayerPlan { neurons: 5, inputs: 64, activation: Activation::Linear, dropout: Some(3) },
        ]
    );
    assert_eq!(
        chess_plan(&Vec::new(), 0),
        vec![LayerPlan { neurons: 5, inputs: 833, activation: Activation::Linear, dropout: None }]
    );
    let network: Network<f64> = Network::filled(&plan, &vec![0.4, 0.3, 0.2, 0.1, 0.0], 0.0);
    assert!(network.accepts_example(833, 5));
    assert_eq!(network.count_parameters(), 256 * 834 + 128 * 257 + 64 * 129 + 5 * 65);
}
